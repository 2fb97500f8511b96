use vstd::prelude::*;

use crate::text::{decimal_string, decimal_text, is_digit, lemma_decimal_roundtrip, owned, parse_usize, spec_parse_usize, str_eq};

verus! {

/// A tempo marking: a fixed tempo, or a gradual change.
#[derive(Debug, Clone, Copy, PartialEq, Eq, Structural)]
pub enum ExtendedTempo {
    Progressive(ProgressiveTempo),
    Static(StaticTempo),
}

pub type Tempo = ExtendedTempo;

impl ExtendedTempo {
    /// A gradual change if the text names one, else a fixed tempo.
    pub open spec fn spec_try_from(s: Seq<char>) -> Result<ExtendedTempo, ()> {
        match ProgressiveTempo::spec_try_from(s) {
            Ok(p) => Ok(ExtendedTempo::Progressive(p)),
            Err(_) => match StaticTempo::spec_try_from(s) {
                Ok(t) => Ok(ExtendedTempo::Static(t)),
                Err(_) => Err(()),
            },
        }
    }

    pub fn try_from(value: &str) -> (r: Result<ExtendedTempo, ()>)
        ensures
            r == ExtendedTempo::spec_try_from(value@),
    {
        match ProgressiveTempo::try_from(value) {
            Ok(p) => Ok(ExtendedTempo::Progressive(p)),
            Err(_) => match StaticTempo::try_from(value) {
                Ok(t) => Ok(ExtendedTempo::Static(t)),
                Err(_) => Err(()),
            },
        }
    }

    pub open spec fn spec_text(self) -> Seq<char> {
        match self {
            ExtendedTempo::Static(t) => t.spec_text(),
            ExtendedTempo::Progressive(p) => p.spec_text(),
        }
    }

    pub fn to_string(&self) -> (r: String)
        ensures
            r@ == self.spec_text(),
    {
        match self {
            ExtendedTempo::Static(t) => t.to_string(),
            ExtendedTempo::Progressive(p) => p.to_string(),
        }
    }
}

/// A fixed tempo: a named one, or a number of beats per minute.
#[derive(Debug, Clone, Copy, PartialEq, Eq, Structural)]
pub enum StaticTempo {
    Grave,
    Largo,
    Adagio,
    Andante,
    Moderato,
    Allegro,
    Vivace,
    Presto,
    Custom(u16),
}

impl StaticTempo {
    /// Beats per minute.
    pub open spec fn spec_bpm(self) -> u16 {
        match self {
            StaticTempo::Grave => 40,
            StaticTempo::Largo => 50,
            StaticTempo::Adagio => 70,
            StaticTempo::Andante => 90,
            StaticTempo::Moderato => 110,
            StaticTempo::Allegro => 130,
            StaticTempo::Vivace => 160,
            StaticTempo::Presto => 180,
            StaticTempo::Custom(val) => val,
        }
    }

    pub fn bpm(&self) -> (r: u16)
        ensures
            r == self.spec_bpm(),
    {
        match self {
            StaticTempo::Grave => 40,
            StaticTempo::Largo => 50,
            StaticTempo::Adagio => 70,
            StaticTempo::Andante => 90,
            StaticTempo::Moderato => 110,
            StaticTempo::Allegro => 130,
            StaticTempo::Vivace => 160,
            StaticTempo::Presto => 180,
            StaticTempo::Custom(val) => *val,
        }
    }

    /// A tempo name, or a decimal number kept modulo 2^16.
    pub open spec fn spec_try_from(s: Seq<char>) -> Result<StaticTempo, ()> {
        if s == "grave"@ {
            Ok(StaticTempo::Grave)
        } else if s == "largo"@ {
            Ok(StaticTempo::Largo)
        } else if s == "adagio"@ {
            Ok(StaticTempo::Adagio)
        } else if s == "andante"@ {
            Ok(StaticTempo::Andante)
        } else if s == "moderato"@ {
            Ok(StaticTempo::Moderato)
        } else if s == "allegro"@ {
            Ok(StaticTempo::Allegro)
        } else if s == "vivace"@ {
            Ok(StaticTempo::Vivace)
        } else if s == "presto"@ {
            Ok(StaticTempo::Presto)
        } else {
            match spec_parse_usize(s) {
                Some(v) => Ok(StaticTempo::Custom((v % 0x10000) as u16)),
                None => Err(()),
            }
        }
    }

    pub fn try_from(value: &str) -> (r: Result<StaticTempo, ()>)
        ensures
            r == StaticTempo::spec_try_from(value@),
    {
        if str_eq(value, "grave") {
            Ok(StaticTempo::Grave)
        } else if str_eq(value, "largo") {
            Ok(StaticTempo::Largo)
        } else if str_eq(value, "adagio") {
            Ok(StaticTempo::Adagio)
        } else if str_eq(value, "andante") {
            Ok(StaticTempo::Andante)
        } else if str_eq(value, "moderato") {
            Ok(StaticTempo::Moderato)
        } else if str_eq(value, "allegro") {
            Ok(StaticTempo::Allegro)
        } else if str_eq(value, "vivace") {
            Ok(StaticTempo::Vivace)
        } else if str_eq(value, "presto") {
            Ok(StaticTempo::Presto)
        } else {
            match parse_usize(value) {
                Some(v) => Ok(StaticTempo::Custom((v % 0x10000) as u16)),
                None => Err(()),
            }
        }
    }

    pub open spec fn spec_text(self) -> Seq<char> {
        match self {
            StaticTempo::Grave => "grave"@,
            StaticTempo::Largo => "largo"@,
            StaticTempo::Adagio => "adagio"@,
            StaticTempo::Andante => "andante"@,
            StaticTempo::Moderato => "moderato"@,
            StaticTempo::Allegro => "allegro"@,
            StaticTempo::Vivace => "vivace"@,
            StaticTempo::Presto => "presto"@,
            StaticTempo::Custom(val) => decimal_text(val as nat),
        }
    }

    pub fn to_string(&self) -> (r: String)
        ensures
            r@ == self.spec_text(),
    {
        match self {
            StaticTempo::Grave => owned("grave"),
            StaticTempo::Largo => owned("largo"),
            StaticTempo::Adagio => owned("adagio"),
            StaticTempo::Andante => owned("andante"),
            StaticTempo::Moderato => owned("moderato"),
            StaticTempo::Allegro => owned("allegro"),
            StaticTempo::Vivace => owned("vivace"),
            StaticTempo::Presto => owned("presto"),
            StaticTempo::Custom(val) => decimal_string(*val as usize),
        }
    }
}

/// A gradual change of tempo.
#[derive(Debug, Clone, Copy, PartialEq, Eq, Structural)]
pub enum ProgressiveTempo {
    Rit,
    Accel,
}

impl ProgressiveTempo {
    /// Which value the textual form names, if any.
    pub open spec fn spec_try_from(s: Seq<char>) -> Result<ProgressiveTempo, ()> {
        if s == "rit"@ {
            Ok(ProgressiveTempo::Rit)
        } else if s == "accel"@ {
            Ok(ProgressiveTempo::Accel)
        } else {
            Err(())
        }
    }

    /// Reads a value from the textual form.
    pub fn try_from(value: &str) -> (r: Result<ProgressiveTempo, ()>)
        ensures
            r == ProgressiveTempo::spec_try_from(value@),
    {
        if str_eq(value, "rit") {
            Ok(ProgressiveTempo::Rit)
        } else if str_eq(value, "accel") {
            Ok(ProgressiveTempo::Accel)
        } else {
            Err(())
        }
    }

    /// The printed form of the value.
    pub open spec fn spec_text(self) -> Seq<char> {
        match self {
            ProgressiveTempo::Rit => "rit"@,
            ProgressiveTempo::Accel => "accel"@,
        }
    }

    /// Prints the value.
    pub fn to_string(&self) -> (r: String)
        ensures
            r@ == self.spec_text(),
    {
        match self {
            ProgressiveTempo::Rit => owned("rit"),
            ProgressiveTempo::Accel => owned("accel"),
        }
    }
}

/// Reading the printed form of a gradual change gives it back.
pub proof fn lemma_progressive_tempo_roundtrip(p: ProgressiveTempo)
    ensures
        ProgressiveTempo::spec_try_from(p.spec_text()) == Ok::<ProgressiveTempo, ()>(p),
{
    reveal_strlit("rit");
    reveal_strlit("accel");
    assert("accel"@.len() != "rit"@.len());
}

/// Reading the printed form of a fixed tempo gives it back: its name, or
/// its beats per minute in decimal.
pub proof fn lemma_static_tempo_roundtrip(t: StaticTempo)
    ensures
        StaticTempo::spec_try_from(t.spec_text()) == Ok::<StaticTempo, ()>(t),
        ProgressiveTempo::spec_try_from(t.spec_text()) is Err,
{
    reveal_strlit("grave");
    reveal_strlit("largo");
    reveal_strlit("adagio");
    reveal_strlit("andante");
    reveal_strlit("moderato");
    reveal_strlit("allegro");
    reveal_strlit("vivace");
    reveal_strlit("presto");
    reveal_strlit("rit");
    reveal_strlit("accel");
    let s = t.spec_text();
    match t {
        StaticTempo::Custom(v) => {
            lemma_decimal_roundtrip(v as usize);
            assert(is_digit(s[0]));
            assert(s != "grave"@ && s != "largo"@ && s != "adagio"@ && s != "andante"@) by {
                assert(!is_digit("grave"@[0]) && !is_digit("largo"@[0]) && !is_digit("adagio"@[0])
                    && !is_digit("andante"@[0]));
            }
            assert(s != "moderato"@ && s != "allegro"@ && s != "vivace"@ && s != "presto"@) by {
                assert(!is_digit("moderato"@[0]) && !is_digit("allegro"@[0]) && !is_digit("vivace"@[0])
                    && !is_digit("presto"@[0]));
            }
            assert(s != "rit"@ && s != "accel"@) by {
                assert(!is_digit("rit"@[0]) && !is_digit("accel"@[0]));
            }
            assert((v as usize) % 0x10000 == v);
        },
        _ => {
            assert(s != "rit"@ && s != "accel"@) by {
                assert(s.len() != "rit"@.len() || s[0] != "rit"@[0]);
                assert(s.len() != "accel"@.len() || s[1] != "accel"@[1]);
            }
            assert(t == StaticTempo::Grave || s != "grave"@) by {
                if t != StaticTempo::Grave {
                    assert(s.len() != "grave"@.len() || s[0] != "grave"@[0] || s[1] != "grave"@[1]);
                }
            }
            assert(t == StaticTempo::Largo || s != "largo"@) by {
                if t != StaticTempo::Largo {
                    assert(s.len() != "largo"@.len() || s[0] != "largo"@[0]);
                }
            }
            assert(t == StaticTempo::Adagio || s != "adagio"@) by {
                if t != StaticTempo::Adagio {
                    assert(s.len() != "adagio"@.len() || s[1] != "adagio"@[1]);
                }
            }
            assert(t == StaticTempo::Andante || s != "andante"@) by {
                if t != StaticTempo::Andante {
                    assert(s.len() != "andante"@.len() || s[1] != "andante"@[1]);
                }
            }
            assert(t == StaticTempo::Moderato || s != "moderato"@) by {
                if t != StaticTempo::Moderato {
                    assert(s.len() != "moderato"@.len());
                }
            }
            assert(t == StaticTempo::Allegro || s != "allegro"@) by {
                if t != StaticTempo::Allegro {
                    assert(s.len() != "allegro"@.len() || s[1] != "allegro"@[1]);
                }
            }
            assert(t == StaticTempo::Vivace || s != "vivace"@) by {
                if t != StaticTempo::Vivace {
                    assert(s.len() != "vivace"@.len() || s[0] != "vivace"@[0]);
                }
            }
        },
    }
}

/// Reading the printed form of a tempo marking gives it back.
pub proof fn lemma_tempo_roundtrip(t: ExtendedTempo)
    ensures
        ExtendedTempo::spec_try_from(t.spec_text()) == Ok::<ExtendedTempo, ()>(t),
{
    match t {
        ExtendedTempo::Progressive(p) => lemma_progressive_tempo_roundtrip(p),
        ExtendedTempo::Static(s) => lemma_static_tempo_roundtrip(s),
    }
}

/// The named tempos go from slowest to fastest: grave, largo, adagio,
/// andante, moderato, allegro, vivace, presto; a number gives that many
/// beats per minute.
pub proof fn lemma_bpm_order(v: u16)
    ensures
        StaticTempo::Grave.spec_bpm() < StaticTempo::Largo.spec_bpm(),
        StaticTempo::Largo.spec_bpm() < StaticTempo::Adagio.spec_bpm(),
        StaticTempo::Adagio.spec_bpm() < StaticTempo::Andante.spec_bpm(),
        StaticTempo::Andante.spec_bpm() < StaticTempo::Moderato.spec_bpm(),
        StaticTempo::Moderato.spec_bpm() < StaticTempo::Allegro.spec_bpm(),
        StaticTempo::Allegro.spec_bpm() < StaticTempo::Vivace.spec_bpm(),
        StaticTempo::Vivace.spec_bpm() < StaticTempo::Presto.spec_bpm(),
        StaticTempo::Custom(v).spec_bpm() == v,
{
}

} // verus!
