use vstd::prelude::*;

use crate::text::{owned, str_eq};

verus! {

/// A key of the score: a base note and an accidental.
#[derive(Debug, Clone, Copy, PartialEq, Eq, Structural)]
pub struct Key {
    pub base: BaseKey,
    pub accidental: KeyAccidental,
}

impl Key {
    /// The key's distance from C, in semitones.
    pub open spec fn spec_offset(self) -> int {
        self.base.spec_offset() + self.accidental.spec_offset()
    }

    pub fn offset(self) -> (r: i8)
        ensures
            r == self.spec_offset(),
    {
        self.base.offset() + self.accidental.offset()
    }

    /// A key is read from its base letter, then an optional `#` or `b`;
    /// anything else after the letter reads as no accidental.
    pub open spec fn spec_try_from(s: Seq<char>) -> Result<Key, ()> {
        if s.len() >= 1 {
            match BaseKey::spec_try_from(s.subrange(0, 1)) {
                Ok(base) => Ok(
                    Key {
                        base,
                        accidental: match KeyAccidental::spec_try_from(s.subrange(1, s.len() as int)) {
                            Ok(a) => a,
                            Err(_) => KeyAccidental::Neutral,
                        },
                    },
                ),
                Err(_) => Err(()),
            }
        } else {
            Err(())
        }
    }

    pub fn try_from(value: &str) -> (r: Result<Key, ()>)
        ensures
            r == Key::spec_try_from(value@),
    {
        let n = value.unicode_len();
        if n < 1 {
            return Err(());
        }
        let base = BaseKey::try_from(value.substring_char(0, 1))?;
        let accidental = match KeyAccidental::try_from(value.substring_char(1, n)) {
            Ok(a) => a,
            Err(_) => KeyAccidental::Neutral,
        };
        Ok(Key { base, accidental })
    }

    /// The base letter followed by `#` or `b`.
    pub open spec fn spec_text(self) -> Seq<char> {
        self.base.spec_text() + match self.accidental {
            KeyAccidental::Neutral => ""@,
            KeyAccidental::Sharp => "#"@,
            KeyAccidental::Flat => "b"@,
        }
    }

    pub fn to_string(&self) -> (r: String)
        ensures
            r@ == self.spec_text(),
    {
        let mut out = self.base.to_string();
        let suffix = match self.accidental {
            KeyAccidental::Neutral => "",
            KeyAccidental::Sharp => "#",
            KeyAccidental::Flat => "b",
        };
        out.append(suffix);
        out
    }
}

/// The offsets of keys from C follow the major scale: a whole tone between
/// letters but E-F and B-C, which are a half tone apart; a sharp raises a
/// key by a half tone and a flat lowers it by one.
pub proof fn lemma_key_offsets(k: Key)
    ensures
        BaseKey::C.spec_offset() == 0,
        BaseKey::D.spec_offset() == BaseKey::C.spec_offset() + 2,
        BaseKey::E.spec_offset() == BaseKey::D.spec_offset() + 2,
        BaseKey::F.spec_offset() == BaseKey::E.spec_offset() + 1,
        BaseKey::G.spec_offset() == BaseKey::F.spec_offset() + 2,
        BaseKey::A.spec_offset() == BaseKey::G.spec_offset() + 2,
        BaseKey::B.spec_offset() == BaseKey::A.spec_offset() + 2,
        BaseKey::C.spec_offset() + 12 == BaseKey::B.spec_offset() + 1,
        k.accidental == KeyAccidental::Sharp ==> k.spec_offset() == k.base.spec_offset() + 1,
        k.accidental == KeyAccidental::Flat ==> k.spec_offset() == k.base.spec_offset() - 1,
        k.accidental == KeyAccidental::Neutral ==> k.spec_offset() == k.base.spec_offset(),
{
}

/// Reading the printed form of a base letter gives it back, and that form
/// is one character long.
pub proof fn lemma_base_key_text_roundtrip(b: BaseKey)
    ensures
        b.spec_text().len() == 1,
        BaseKey::spec_try_from(b.spec_text()) == Ok::<BaseKey, ()>(b),
{
    reveal_strlit("C");
    reveal_strlit("D");
    reveal_strlit("E");
    reveal_strlit("F");
    reveal_strlit("G");
    reveal_strlit("A");
    reveal_strlit("B");
    match b {
        BaseKey::C => {
        },
        BaseKey::D => {
            assert("D"@ != "C"@) by {
                assert("D"@[0] != "C"@[0]);
            }
        },
        BaseKey::E => {
            assert("E"@ != "C"@) by {
                assert("E"@[0] != "C"@[0]);
            }
            assert("E"@ != "D"@) by {
                assert("E"@[0] != "D"@[0]);
            }
        },
        BaseKey::F => {
            assert("F"@ != "C"@) by {
                assert("F"@[0] != "C"@[0]);
            }
            assert("F"@ != "D"@) by {
                assert("F"@[0] != "D"@[0]);
            }
            assert("F"@ != "E"@) by {
                assert("F"@[0] != "E"@[0]);
            }
        },
        BaseKey::G => {
            assert("G"@ != "C"@) by {
                assert("G"@[0] != "C"@[0]);
            }
            assert("G"@ != "D"@) by {
                assert("G"@[0] != "D"@[0]);
            }
            assert("G"@ != "E"@) by {
                assert("G"@[0] != "E"@[0]);
            }
            assert("G"@ != "F"@) by {
                assert("G"@[0] != "F"@[0]);
            }
        },
        BaseKey::A => {
            assert("A"@ != "C"@) by {
                assert("A"@[0] != "C"@[0]);
            }
            assert("A"@ != "D"@) by {
                assert("A"@[0] != "D"@[0]);
            }
            assert("A"@ != "E"@) by {
                assert("A"@[0] != "E"@[0]);
            }
            assert("A"@ != "F"@) by {
                assert("A"@[0] != "F"@[0]);
            }
            assert("A"@ != "G"@) by {
                assert("A"@[0] != "G"@[0]);
            }
        },
        BaseKey::B => {
            assert("B"@ != "C"@) by {
                assert("B"@[0] != "C"@[0]);
            }
            assert("B"@ != "D"@) by {
                assert("B"@[0] != "D"@[0]);
            }
            assert("B"@ != "E"@) by {
                assert("B"@[0] != "E"@[0]);
            }
            assert("B"@ != "F"@) by {
                assert("B"@[0] != "F"@[0]);
            }
            assert("B"@ != "G"@) by {
                assert("B"@[0] != "G"@[0]);
            }
            assert("B"@ != "A"@) by {
                assert("B"@[0] != "A"@[0]);
            }
        },
    }
}

/// Reading the printed form of a key gives the key back: its letter, then
/// `#` for a sharp, `b` for a flat and nothing for a natural.
pub proof fn lemma_key_text_roundtrip(k: Key)
    ensures
        Key::spec_try_from(k.spec_text()) == Ok::<Key, ()>(k),
        k.accidental == KeyAccidental::Flat ==> k.spec_text() == k.base.spec_text() + "b"@,
        k.accidental == KeyAccidental::Sharp ==> k.spec_text() == k.base.spec_text() + "#"@,
        k.accidental == KeyAccidental::Neutral ==> k.spec_text() == k.base.spec_text(),
{
    lemma_base_key_text_roundtrip(k.base);
    reveal_strlit("");
    reveal_strlit("#");
    reveal_strlit("b");
    let t = k.spec_text();
    let bt = k.base.spec_text();
    let suffix = match k.accidental {
        KeyAccidental::Neutral => ""@,
        KeyAccidental::Sharp => "#"@,
        KeyAccidental::Flat => "b"@,
    };
    assert(t == bt + suffix);
    assert(t.subrange(0, 1) =~= bt);
    assert(t.subrange(1, t.len() as int) =~= suffix);
    match k.accidental {
        KeyAccidental::Neutral => {
            assert(suffix.len() == 0);
            assert(suffix != "b"@);
            assert(suffix != "#"@);
            assert(bt + suffix =~= bt);
        },
        KeyAccidental::Sharp => {
            assert(suffix != "b"@) by {
                assert(suffix[0] != "b"@[0]);
            }
        },
        KeyAccidental::Flat => {},
    }
}

/// The base letter of a key.
#[derive(Debug, Clone, Copy, PartialEq, Eq, Structural)]
pub enum BaseKey {
    C,
    D,
    E,
    F,
    G,
    A,
    B,
}

impl BaseKey {
    pub open spec fn spec_offset(self) -> int {
        match self {
            BaseKey::C => 0,
            BaseKey::D => 2,
            BaseKey::E => 4,
            BaseKey::F => 5,
            BaseKey::G => 7,
            BaseKey::A => 9,
            BaseKey::B => 11,
        }
    }

    pub fn offset(self) -> (r: i8)
        ensures
            r == self.spec_offset(),
    {
        match self {
            BaseKey::C => 0,
            BaseKey::D => 2,
            BaseKey::E => 4,
            BaseKey::F => 5,
            BaseKey::G => 7,
            BaseKey::A => 9,
            BaseKey::B => 11,
        }
    }

    /// Which value the textual form names, if any.
    pub open spec fn spec_try_from(s: Seq<char>) -> Result<BaseKey, ()> {
        if s == "C"@ {
            Ok(BaseKey::C)
        } else if s == "D"@ {
            Ok(BaseKey::D)
        } else if s == "E"@ {
            Ok(BaseKey::E)
        } else if s == "F"@ {
            Ok(BaseKey::F)
        } else if s == "G"@ {
            Ok(BaseKey::G)
        } else if s == "A"@ {
            Ok(BaseKey::A)
        } else if s == "B"@ {
            Ok(BaseKey::B)
        } else {
            Err(())
        }
    }

    /// Reads a value from the textual form.
    pub fn try_from(value: &str) -> (r: Result<BaseKey, ()>)
        ensures
            r == BaseKey::spec_try_from(value@),
    {
        if str_eq(value, "C") {
            Ok(BaseKey::C)
        } else if str_eq(value, "D") {
            Ok(BaseKey::D)
        } else if str_eq(value, "E") {
            Ok(BaseKey::E)
        } else if str_eq(value, "F") {
            Ok(BaseKey::F)
        } else if str_eq(value, "G") {
            Ok(BaseKey::G)
        } else if str_eq(value, "A") {
            Ok(BaseKey::A)
        } else if str_eq(value, "B") {
            Ok(BaseKey::B)
        } else {
            Err(())
        }
    }

    /// The printed form of the value.
    pub open spec fn spec_text(self) -> Seq<char> {
        match self {
            BaseKey::C => "C"@,
            BaseKey::D => "D"@,
            BaseKey::E => "E"@,
            BaseKey::F => "F"@,
            BaseKey::G => "G"@,
            BaseKey::A => "A"@,
            BaseKey::B => "B"@,
        }
    }

    /// Prints the value.
    pub fn to_string(&self) -> (r: String)
        ensures
            r@ == self.spec_text(),
    {
        match self {
            BaseKey::C => owned("C"),
            BaseKey::D => owned("D"),
            BaseKey::E => owned("E"),
            BaseKey::F => owned("F"),
            BaseKey::G => owned("G"),
            BaseKey::A => owned("A"),
            BaseKey::B => owned("B"),
        }
    }
}

/// The accidental of a key.
#[derive(Debug, Clone, Copy, PartialEq, Eq, Structural)]
pub enum KeyAccidental {
    Neutral,
    Sharp,
    Flat,
}

impl KeyAccidental {
    pub open spec fn spec_offset(self) -> int {
        match self {
            KeyAccidental::Neutral => 0,
            KeyAccidental::Sharp => 1,
            KeyAccidental::Flat => -1,
        }
    }

    pub fn offset(self) -> (r: i8)
        ensures
            r == self.spec_offset(),
    {
        match self {
            KeyAccidental::Neutral => 0,
            KeyAccidental::Sharp => 1,
            KeyAccidental::Flat => -1,
        }
    }

    pub fn default() -> (r: KeyAccidental)
        ensures
            r == KeyAccidental::Neutral,
    {
        KeyAccidental::Neutral
    }

    /// Which value the textual form names, if any.
    pub open spec fn spec_try_from(s: Seq<char>) -> Result<KeyAccidental, ()> {
        if s == "b"@ {
            Ok(KeyAccidental::Flat)
        } else if s == "#"@ {
            Ok(KeyAccidental::Sharp)
        } else {
            Err(())
        }
    }

    /// Reads a value from the textual form.
    pub fn try_from(value: &str) -> (r: Result<KeyAccidental, ()>)
        ensures
            r == KeyAccidental::spec_try_from(value@),
    {
        if str_eq(value, "b") {
            Ok(KeyAccidental::Flat)
        } else if str_eq(value, "#") {
            Ok(KeyAccidental::Sharp)
        } else {
            Err(())
        }
    }
}

} // verus!
