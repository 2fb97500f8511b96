use vstd::prelude::*;

use crate::text::{owned, str_eq};

verus! {

/// A navigation instruction that sends playback back to an earlier point.
#[derive(Debug, Clone, Copy, PartialEq, Eq, Structural)]
pub enum Jump {
    DS,
    DC,
    DSC,
    DSF,
    DCC,
    DCF,
}

impl Jump {
    /// The mark at which playback stops after the jump, if any.
    pub open spec fn spec_final_mark(self) -> Option<Mark> {
        match self {
            Jump::DSF | Jump::DCF => Some(Mark::Fine),
            _ => None,
        }
    }

    pub fn final_mark(&self) -> (r: Option<Mark>)
        ensures
            r == self.spec_final_mark(),
    {
        match self {
            Jump::DSF | Jump::DCF => Some(Mark::Fine),
            _ => None,
        }
    }

    /// The mark the jump goes back to.
    pub open spec fn spec_mark(self) -> Mark {
        match self {
            Jump::DS | Jump::DSC | Jump::DSF => Mark::Segno,
            Jump::DC | Jump::DCC | Jump::DCF => Mark::Coda,
        }
    }

    pub fn mark(&self) -> (r: Mark)
        ensures
            r == self.spec_mark(),
    {
        match self {
            Jump::DS | Jump::DSC | Jump::DSF => Mark::Segno,
            Jump::DC | Jump::DCC | Jump::DCF => Mark::Coda,
        }
    }

    /// Which value the textual form names, if any.
    pub open spec fn spec_try_from(s: Seq<char>) -> Result<Jump, ()> {
        if s == "DS"@ {
            Ok(Jump::DS)
        } else if s == "DC"@ {
            Ok(Jump::DC)
        } else if s == "DSC"@ {
            Ok(Jump::DSC)
        } else if s == "DSF"@ {
            Ok(Jump::DSF)
        } else if s == "DCC"@ {
            Ok(Jump::DCC)
        } else if s == "DCF"@ {
            Ok(Jump::DCF)
        } else {
            Err(())
        }
    }

    /// Reads a value from the textual form.
    pub fn try_from(value: &str) -> (r: Result<Jump, ()>)
        ensures
            r == Jump::spec_try_from(value@),
    {
        if str_eq(value, "DS") {
            Ok(Jump::DS)
        } else if str_eq(value, "DC") {
            Ok(Jump::DC)
        } else if str_eq(value, "DSC") {
            Ok(Jump::DSC)
        } else if str_eq(value, "DSF") {
            Ok(Jump::DSF)
        } else if str_eq(value, "DCC") {
            Ok(Jump::DCC)
        } else if str_eq(value, "DCF") {
            Ok(Jump::DCF)
        } else {
            Err(())
        }
    }

    /// The printed form of the value.
    pub open spec fn spec_text(self) -> Seq<char> {
        match self {
            Jump::DS => "DS"@,
            Jump::DC => "DC"@,
            Jump::DSC => "DSC"@,
            Jump::DSF => "DSF"@,
            Jump::DCC => "DCC"@,
            Jump::DCF => "DCF"@,
        }
    }

    /// Prints the value.
    pub fn to_string(&self) -> (r: String)
        ensures
            r@ == self.spec_text(),
    {
        match self {
            Jump::DS => owned("DS"),
            Jump::DC => owned("DC"),
            Jump::DSC => owned("DSC"),
            Jump::DSF => owned("DSF"),
            Jump::DCC => owned("DCC"),
            Jump::DCF => owned("DCF"),
        }
    }
}

/// A navigation mark placed in the score.
#[derive(Debug, Clone, Copy, PartialEq, Eq, Structural)]
pub enum Mark {
    ToCoda,
    Segno,
    Coda,
    Fine,
}

impl Mark {
    /// Which value the textual form names, if any.
    pub open spec fn spec_try_from(s: Seq<char>) -> Result<Mark, ()> {
        if s == "S"@ {
            Ok(Mark::Segno)
        } else if s == "C"@ {
            Ok(Mark::Coda)
        } else if s == "F"@ {
            Ok(Mark::Fine)
        } else if s == "TC"@ {
            Ok(Mark::Fine)
        } else {
            Err(())
        }
    }

    /// Reads a value from the textual form.
    pub fn try_from(value: &str) -> (r: Result<Mark, ()>)
        ensures
            r == Mark::spec_try_from(value@),
    {
        if str_eq(value, "S") {
            Ok(Mark::Segno)
        } else if str_eq(value, "C") {
            Ok(Mark::Coda)
        } else if str_eq(value, "F") {
            Ok(Mark::Fine)
        } else if str_eq(value, "TC") {
            Ok(Mark::Fine)
        } else {
            Err(())
        }
    }

    /// The printed form of the value.
    pub open spec fn spec_text(self) -> Seq<char> {
        match self {
            Mark::Segno => "S"@,
            Mark::Coda => "C"@,
            Mark::Fine => "F"@,
            Mark::ToCoda => "TC"@,
        }
    }

    /// Prints the value.
    pub fn to_string(&self) -> (r: String)
        ensures
            r@ == self.spec_text(),
    {
        match self {
            Mark::Segno => owned("S"),
            Mark::Coda => owned("C"),
            Mark::Fine => owned("F"),
            Mark::ToCoda => owned("TC"),
        }
    }
}

/// Reading the printed form of a jump gives the jump back.
pub proof fn lemma_jump_text_roundtrip(v: Jump)
    ensures
        Jump::spec_try_from(v.spec_text()) == Ok::<Jump, ()>(v),
{
    match v {
        Jump::DS => {
            reveal_strlit("DS");
        },
        Jump::DC => {
            reveal_strlit("DC");
            reveal_strlit("DS");
            assert("DC"@[1] != "DS"@[1]);
        },
        Jump::DSC => {
            reveal_strlit("DSC");
            reveal_strlit("DS");
            assert("DSC"@.len() != "DS"@.len());
            reveal_strlit("DC");
            assert("DSC"@.len() != "DC"@.len());
        },
        Jump::DSF => {
            reveal_strlit("DSF");
            reveal_strlit("DS");
            assert("DSF"@.len() != "DS"@.len());
            reveal_strlit("DC");
            assert("DSF"@.len() != "DC"@.len());
            reveal_strlit("DSC");
            assert("DSF"@[2] != "DSC"@[2]);
        },
        Jump::DCC => {
            reveal_strlit("DCC");
            reveal_strlit("DS");
            assert("DCC"@.len() != "DS"@.len());
            reveal_strlit("DC");
            assert("DCC"@.len() != "DC"@.len());
            reveal_strlit("DSC");
            assert("DCC"@[1] != "DSC"@[1]);
            reveal_strlit("DSF");
            assert("DCC"@[1] != "DSF"@[1]);
        },
        Jump::DCF => {
            reveal_strlit("DCF");
            reveal_strlit("DS");
            assert("DCF"@.len() != "DS"@.len());
            reveal_strlit("DC");
            assert("DCF"@.len() != "DC"@.len());
            reveal_strlit("DSC");
            assert("DCF"@[1] != "DSC"@[1]);
            reveal_strlit("DSF");
            assert("DCF"@[1] != "DSF"@[1]);
            reveal_strlit("DCC");
            assert("DCF"@[2] != "DCC"@[2]);
        },
    }
}

/// Reading the printed form of a mark gives the mark back, for every mark but `ToCoda`, whose form `TC` reads as `Fine`.
pub proof fn lemma_mark_text_roundtrip(v: Mark)
    requires
        v != Mark::ToCoda,
    ensures
        Mark::spec_try_from(v.spec_text()) == Ok::<Mark, ()>(v),
{
    match v {
        Mark::Segno => {
            reveal_strlit("S");
        },
        Mark::Coda => {
            reveal_strlit("C");
            reveal_strlit("S");
            assert("C"@[0] != "S"@[0]);
        },
        Mark::Fine => {
            reveal_strlit("F");
            reveal_strlit("S");
            assert("F"@[0] != "S"@[0]);
            reveal_strlit("C");
            assert("F"@[0] != "C"@[0]);
        },
        _ => {},
    }
}

} // verus!
