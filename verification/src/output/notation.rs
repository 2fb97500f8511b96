use vstd::prelude::*;

use crate::ast::solfa::PulseAccent;
use crate::ir::solfa::PulseIr;

verus! {

/// The sign printed before the first column of a pulse in a score: a blank
/// for a strong pulse (the bar line stands there), `|` for a medium one and
/// `:` for a weak one.
pub open spec fn spec_pulse_accent_sign(accent: PulseAccent) -> Seq<char> {
    match accent {
        PulseAccent::Strong => " "@,
        PulseAccent::Medium => "|"@,
        PulseAccent::Weak => ":"@,
    }
}

pub fn format_pulse_accent(accent: PulseAccent) -> (r: &'static str)
    ensures
        r@ == spec_pulse_accent_sign(accent),
{
    match accent {
        PulseAccent::Strong => " ",
        PulseAccent::Medium => "|",
        PulseAccent::Weak => ":",
    }
}

/// The sign printed before column `step` of a pulse split into `factor`
/// parts, `clock` counting the parts: the accent before the first column,
/// `.` at a half, `.,` at three quarters, `,` at a quarter or at a column of
/// its own part.
pub open spec fn spec_column_prefix(accent: PulseAccent, factor: usize, step: usize, clock: usize) -> Seq<char> {
    if step == 0 {
        spec_pulse_accent_sign(accent)
    } else if (step == 1 && clock == 1 && factor == 2) || (clock == 2 && factor == 4) {
        "."@
    } else if step == 1 && clock == 3 && factor == 4 {
        ".,"@
    } else if (clock == 1 || clock == 3) && factor == 4 {
        ","@
    } else if step == clock {
        ","@
    } else {
        ""@
    }
}

pub fn resolve_column_prefix(pulse: &PulseIr, step: usize, clock: usize) -> (r: &'static str)
    ensures
        r@ == spec_column_prefix(pulse.accent, pulse.factor, step, clock),
{
    let factor = pulse.factor;
    if step == 0 {
        format_pulse_accent(pulse.accent)
    } else if (step == 1 && clock == 1 && factor == 2) || (clock == 2 && factor == 4) {
        "."
    } else if step == 1 && clock == 3 && factor == 4 {
        ".,"
    } else if (clock == 1 || clock == 3) && factor == 4 {
        ","
    } else if step == clock {
        ","
    } else {
        ""
    }
}

/// The XML form of a character: `<`, `>`, `&`, `"` and `'` become entities.
pub open spec fn escaped_char(c: char) -> Seq<char> {
    if c == '<' {
        "&lt;"@
    } else if c == '>' {
        "&gt;"@
    } else if c == '&' {
        "&amp;"@
    } else if c == '"' {
        "&quot;"@
    } else if c == '\'' {
        "&apos;"@
    } else {
        seq![c]
    }
}

/// The XML form of a text, character by character.
pub open spec fn escaped(s: Seq<char>) -> Seq<char>
    decreases s.len(),
{
    if s.len() == 0 {
        Seq::empty()
    } else {
        escaped(s.drop_last()) + escaped_char(s.last())
    }
}

/// Escapes a text for use in XML.
pub fn xml_escape(input: &str) -> (r: String)
    ensures
        r@ == escaped(input@),
{
    let n = input.unicode_len();
    let mut result = String::new();
    let mut i: usize = 0;
    assert(result@ =~= escaped(input@.subrange(0, 0)));
    while i < n
        invariant
            n == input@.len(),
            i <= n,
            result@ == escaped(input@.subrange(0, i as int)),
        decreases n - i,
    {
        let c = input.get_char(i);
        let piece: &str = if c == '<' {
            "&lt;"
        } else if c == '>' {
            "&gt;"
        } else if c == '&' {
            "&amp;"
        } else if c == '"' {
            "&quot;"
        } else if c == '\'' {
            "&apos;"
        } else {
            input.substring_char(i, i + 1)
        };
        proof {
            let p = input@.subrange(0, i as int + 1);
            assert(p.drop_last() =~= input@.subrange(0, i as int));
            assert(p.last() == c);
            if !(c == '<' || c == '>' || c == '&' || c == '"' || c == '\'') {
                assert(input@.subrange(i as int, i as int + 1) =~= seq![c]);
            }
        }
        result.append(piece);
        i = i + 1;
    }
    assert(input@.subrange(0, n as int) =~= input@);
    result
}

} // verus!
