use vstd::prelude::*;

use crate::text::{owned, str_eq};

verus! {

/// A dynamic marking: a loudness level, or a crescendo / decrescendo.
#[derive(Debug, Clone, Copy, PartialEq, Eq, Structural)]
pub enum Dynamic {
    P,
    MP,
    PP,
    PPP,
    F,
    MF,
    FF,
    FFF,
    Cre,
    Dec,
}

impl Dynamic {
    /// How many timestamps the marking takes: a range for crescendo and
    /// decrescendo, a single point otherwise.
    pub open spec fn spec_expected_params(self) -> usize {
        match self {
            Dynamic::Cre | Dynamic::Dec => 2,
            _ => 1,
        }
    }

    pub fn expected_params(self) -> (r: usize)
        ensures
            r == self.spec_expected_params(),
    {
        match self {
            Dynamic::Cre | Dynamic::Dec => 2,
            _ => 1,
        }
    }

    /// Which value the textual form names, if any.
    pub open spec fn spec_try_from(s: Seq<char>) -> Result<Dynamic, ()> {
        if s == "p"@ {
            Ok(Dynamic::P)
        } else if s == "mp"@ {
            Ok(Dynamic::MP)
        } else if s == "pp"@ {
            Ok(Dynamic::PP)
        } else if s == "ppp"@ {
            Ok(Dynamic::PPP)
        } else if s == "f"@ {
            Ok(Dynamic::F)
        } else if s == "mf"@ {
            Ok(Dynamic::MF)
        } else if s == "ff"@ {
            Ok(Dynamic::FF)
        } else if s == "fff"@ {
            Ok(Dynamic::FFF)
        } else if s == "cre"@ {
            Ok(Dynamic::Cre)
        } else if s == "dec"@ {
            Ok(Dynamic::Dec)
        } else {
            Err(())
        }
    }

    /// Reads a value from the textual form.
    pub fn try_from(value: &str) -> (r: Result<Dynamic, ()>)
        ensures
            r == Dynamic::spec_try_from(value@),
    {
        if str_eq(value, "p") {
            Ok(Dynamic::P)
        } else if str_eq(value, "mp") {
            Ok(Dynamic::MP)
        } else if str_eq(value, "pp") {
            Ok(Dynamic::PP)
        } else if str_eq(value, "ppp") {
            Ok(Dynamic::PPP)
        } else if str_eq(value, "f") {
            Ok(Dynamic::F)
        } else if str_eq(value, "mf") {
            Ok(Dynamic::MF)
        } else if str_eq(value, "ff") {
            Ok(Dynamic::FF)
        } else if str_eq(value, "fff") {
            Ok(Dynamic::FFF)
        } else if str_eq(value, "cre") {
            Ok(Dynamic::Cre)
        } else if str_eq(value, "dec") {
            Ok(Dynamic::Dec)
        } else {
            Err(())
        }
    }

    /// The printed form of the value.
    pub open spec fn spec_text(self) -> Seq<char> {
        match self {
            Dynamic::P => "p"@,
            Dynamic::MP => "mp"@,
            Dynamic::PP => "pp"@,
            Dynamic::PPP => "ppp"@,
            Dynamic::F => "f"@,
            Dynamic::MF => "mf"@,
            Dynamic::FF => "ff"@,
            Dynamic::FFF => "fff"@,
            Dynamic::Cre => "cre"@,
            Dynamic::Dec => "dec"@,
        }
    }

    /// Prints the value.
    pub fn to_string(&self) -> (r: String)
        ensures
            r@ == self.spec_text(),
    {
        match self {
            Dynamic::P => owned("p"),
            Dynamic::MP => owned("mp"),
            Dynamic::PP => owned("pp"),
            Dynamic::PPP => owned("ppp"),
            Dynamic::F => owned("f"),
            Dynamic::MF => owned("mf"),
            Dynamic::FF => owned("ff"),
            Dynamic::FFF => owned("fff"),
            Dynamic::Cre => owned("cre"),
            Dynamic::Dec => owned("dec"),
        }
    }
}

/// Reading the printed form of a dynamic marking gives the marking back.
pub proof fn lemma_dynamic_text_roundtrip(v: Dynamic)
    ensures
        Dynamic::spec_try_from(v.spec_text()) == Ok::<Dynamic, ()>(v),
{
    match v {
        Dynamic::P => {
            reveal_strlit("p");
        },
        Dynamic::MP => {
            reveal_strlit("mp");
            reveal_strlit("p");
            assert("mp"@.len() != "p"@.len());
        },
        Dynamic::PP => {
            reveal_strlit("pp");
            reveal_strlit("p");
            assert("pp"@.len() != "p"@.len());
            reveal_strlit("mp");
            assert("pp"@[0] != "mp"@[0]);
        },
        Dynamic::PPP => {
            reveal_strlit("ppp");
            reveal_strlit("p");
            assert("ppp"@.len() != "p"@.len());
            reveal_strlit("mp");
            assert("ppp"@.len() != "mp"@.len());
            reveal_strlit("pp");
            assert("ppp"@.len() != "pp"@.len());
        },
        Dynamic::F => {
            reveal_strlit("f");
            reveal_strlit("p");
            assert("f"@[0] != "p"@[0]);
            reveal_strlit("mp");
            assert("f"@.len() != "mp"@.len());
            reveal_strlit("pp");
            assert("f"@.len() != "pp"@.len());
            reveal_strlit("ppp");
            assert("f"@.len() != "ppp"@.len());
        },
        Dynamic::MF => {
            reveal_strlit("mf");
            reveal_strlit("p");
            assert("mf"@.len() != "p"@.len());
            reveal_strlit("mp");
            assert("mf"@[1] != "mp"@[1]);
            reveal_strlit("pp");
            assert("mf"@[0] != "pp"@[0]);
            reveal_strlit("ppp");
            assert("mf"@.len() != "ppp"@.len());
            reveal_strlit("f");
            assert("mf"@.len() != "f"@.len());
        },
        Dynamic::FF => {
            reveal_strlit("ff");
            reveal_strlit("p");
            assert("ff"@.len() != "p"@.len());
            reveal_strlit("mp");
            assert("ff"@[0] != "mp"@[0]);
            reveal_strlit("pp");
            assert("ff"@[0] != "pp"@[0]);
            reveal_strlit("ppp");
            assert("ff"@.len() != "ppp"@.len());
            reveal_strlit("f");
            assert("ff"@.len() != "f"@.len());
            reveal_strlit("mf");
            assert("ff"@[0] != "mf"@[0]);
        },
        Dynamic::FFF => {
            reveal_strlit("fff");
            reveal_strlit("p");
            assert("fff"@.len() != "p"@.len());
            reveal_strlit("mp");
            assert("fff"@.len() != "mp"@.len());
            reveal_strlit("pp");
            assert("fff"@.len() != "pp"@.len());
            reveal_strlit("ppp");
            assert("fff"@[0] != "ppp"@[0]);
            reveal_strlit("f");
            assert("fff"@.len() != "f"@.len());
            reveal_strlit("mf");
            assert("fff"@.len() != "mf"@.len());
            reveal_strlit("ff");
            assert("fff"@.len() != "ff"@.len());
        },
        Dynamic::Cre => {
            reveal_strlit("cre");
            reveal_strlit("p");
            assert("cre"@.len() != "p"@.len());
            reveal_strlit("mp");
            assert("cre"@.len() != "mp"@.len());
            reveal_strlit("pp");
            assert("cre"@.len() != "pp"@.len());
            reveal_strlit("ppp");
            assert("cre"@[0] != "ppp"@[0]);
            reveal_strlit("f");
            assert("cre"@.len() != "f"@.len());
            reveal_strlit("mf");
            assert("cre"@.len() != "mf"@.len());
            reveal_strlit("ff");
            assert("cre"@.len() != "ff"@.len());
            reveal_strlit("fff");
            assert("cre"@[0] != "fff"@[0]);
        },
        Dynamic::Dec => {
            reveal_strlit("dec");
            reveal_strlit("p");
            assert("dec"@.len() != "p"@.len());
            reveal_strlit("mp");
            assert("dec"@.len() != "mp"@.len());
            reveal_strlit("pp");
            assert("dec"@.len() != "pp"@.len());
            reveal_strlit("ppp");
            assert("dec"@[0] != "ppp"@[0]);
            reveal_strlit("f");
            assert("dec"@.len() != "f"@.len());
            reveal_strlit("mf");
            assert("dec"@.len() != "mf"@.len());
            reveal_strlit("ff");
            assert("dec"@.len() != "ff"@.len());
            reveal_strlit("fff");
            assert("dec"@[0] != "fff"@[0]);
            reveal_strlit("cre");
            assert("dec"@[0] != "cre"@[0]);
        },
    }
}

} // verus!
