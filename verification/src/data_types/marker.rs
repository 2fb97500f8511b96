use vstd::prelude::*;

use crate::text::{owned, str_eq};

verus! {

/// A navigation marking: a jump or a mark.
#[derive(Debug, Clone, Copy, PartialEq, Eq, Structural)]
pub enum Navigation {
    DS,
    DC,
    DSC,
    DSF,
    DCC,
    DCF,
    Segno,
    Coda,
    Fine,
}

impl Navigation {
    /// Which value the textual form names, if any.
    pub open spec fn spec_try_from(s: Seq<char>) -> Result<Navigation, ()> {
        if s == "DS"@ {
            Ok(Navigation::DS)
        } else if s == "DC"@ {
            Ok(Navigation::DC)
        } else if s == "DSC"@ {
            Ok(Navigation::DSC)
        } else if s == "DSF"@ {
            Ok(Navigation::DSF)
        } else if s == "DCC"@ {
            Ok(Navigation::DCC)
        } else if s == "DCF"@ {
            Ok(Navigation::DCF)
        } else if s == "S"@ {
            Ok(Navigation::Segno)
        } else if s == "C"@ {
            Ok(Navigation::Coda)
        } else if s == "F"@ {
            Ok(Navigation::Fine)
        } else {
            Err(())
        }
    }

    /// Reads a value from the textual form.
    pub fn try_from(value: &str) -> (r: Result<Navigation, ()>)
        ensures
            r == Navigation::spec_try_from(value@),
    {
        if str_eq(value, "DS") {
            Ok(Navigation::DS)
        } else if str_eq(value, "DC") {
            Ok(Navigation::DC)
        } else if str_eq(value, "DSC") {
            Ok(Navigation::DSC)
        } else if str_eq(value, "DSF") {
            Ok(Navigation::DSF)
        } else if str_eq(value, "DCC") {
            Ok(Navigation::DCC)
        } else if str_eq(value, "DCF") {
            Ok(Navigation::DCF)
        } else if str_eq(value, "S") {
            Ok(Navigation::Segno)
        } else if str_eq(value, "C") {
            Ok(Navigation::Coda)
        } else if str_eq(value, "F") {
            Ok(Navigation::Fine)
        } else {
            Err(())
        }
    }

    /// The printed form of the value.
    pub open spec fn spec_text(self) -> Seq<char> {
        match self {
            Navigation::DS => "DS"@,
            Navigation::DC => "DC"@,
            Navigation::DSC => "DSC"@,
            Navigation::DSF => "DSF"@,
            Navigation::DCC => "DCC"@,
            Navigation::DCF => "DCF"@,
            Navigation::Segno => "S"@,
            Navigation::Coda => "C"@,
            Navigation::Fine => "F"@,
        }
    }

    /// Prints the value.
    pub fn to_string(&self) -> (r: String)
        ensures
            r@ == self.spec_text(),
    {
        match self {
            Navigation::DS => owned("DS"),
            Navigation::DC => owned("DC"),
            Navigation::DSC => owned("DSC"),
            Navigation::DSF => owned("DSF"),
            Navigation::DCC => owned("DCC"),
            Navigation::DCF => owned("DCF"),
            Navigation::Segno => owned("S"),
            Navigation::Coda => owned("C"),
            Navigation::Fine => owned("F"),
        }
    }
}

/// Reading the printed form of a navigation marking gives the marking back.
pub proof fn lemma_navigation_text_roundtrip(v: Navigation)
    ensures
        Navigation::spec_try_from(v.spec_text()) == Ok::<Navigation, ()>(v),
{
    match v {
        Navigation::DS => {
            reveal_strlit("DS");
        },
        Navigation::DC => {
            reveal_strlit("DC");
            reveal_strlit("DS");
            assert("DC"@[1] != "DS"@[1]);
        },
        Navigation::DSC => {
            reveal_strlit("DSC");
            reveal_strlit("DS");
            assert("DSC"@.len() != "DS"@.len());
            reveal_strlit("DC");
            assert("DSC"@.len() != "DC"@.len());
        },
        Navigation::DSF => {
            reveal_strlit("DSF");
            reveal_strlit("DS");
            assert("DSF"@.len() != "DS"@.len());
            reveal_strlit("DC");
            assert("DSF"@.len() != "DC"@.len());
            reveal_strlit("DSC");
            assert("DSF"@[2] != "DSC"@[2]);
        },
        Navigation::DCC => {
            reveal_strlit("DCC");
            reveal_strlit("DS");
            assert("DCC"@.len() != "DS"@.len());
            reveal_strlit("DC");
            assert("DCC"@.len() != "DC"@.len());
            reveal_strlit("DSC");
            assert("DCC"@[1] != "DSC"@[1]);
            reveal_strlit("DSF");
            assert("DCC"@[1] != "DSF"@[1]);
        },
        Navigation::DCF => {
            reveal_strlit("DCF");
            reveal_strlit("DS");
            assert("DCF"@.len() != "DS"@.len());
            reveal_strlit("DC");
            assert("DCF"@.len() != "DC"@.len());
            reveal_strlit("DSC");
            assert("DCF"@[1] != "DSC"@[1]);
            reveal_strlit("DSF");
            assert("DCF"@[1] != "DSF"@[1]);
            reveal_strlit("DCC");
            assert("DCF"@[2] != "DCC"@[2]);
        },
        Navigation::Segno => {
            reveal_strlit("S");
            reveal_strlit("DS");
            assert("S"@.len() != "DS"@.len());
            reveal_strlit("DC");
            assert("S"@.len() != "DC"@.len());
            reveal_strlit("DSC");
            assert("S"@.len() != "DSC"@.len());
            reveal_strlit("DSF");
            assert("S"@.len() != "DSF"@.len());
            reveal_strlit("DCC");
            assert("S"@.len() != "DCC"@.len());
            reveal_strlit("DCF");
            assert("S"@.len() != "DCF"@.len());
        },
        Navigation::Coda => {
            reveal_strlit("C");
            reveal_strlit("DS");
            assert("C"@.len() != "DS"@.len());
            reveal_strlit("DC");
            assert("C"@.len() != "DC"@.len());
            reveal_strlit("DSC");
            assert("C"@.len() != "DSC"@.len());
            reveal_strlit("DSF");
            assert("C"@.len() != "DSF"@.len());
            reveal_strlit("DCC");
            assert("C"@.len() != "DCC"@.len());
            reveal_strlit("DCF");
            assert("C"@.len() != "DCF"@.len());
            reveal_strlit("S");
            assert("C"@[0] != "S"@[0]);
        },
        Navigation::Fine => {
            reveal_strlit("F");
            reveal_strlit("DS");
            assert("F"@.len() != "DS"@.len());
            reveal_strlit("DC");
            assert("F"@.len() != "DC"@.len());
            reveal_strlit("DSC");
            assert("F"@.len() != "DSC"@.len());
            reveal_strlit("DSF");
            assert("F"@.len() != "DSF"@.len());
            reveal_strlit("DCC");
            assert("F"@.len() != "DCC"@.len());
            reveal_strlit("DCF");
            assert("F"@.len() != "DCF"@.len());
            reveal_strlit("S");
            assert("F"@[0] != "S"@[0]);
            reveal_strlit("C");
            assert("F"@[0] != "C"@[0]);
        },
    }
}

} // verus!
