use vstd::prelude::*;

use crate::ast::lexing::{find_spec, is_blank, lemma_find_bounds, skip_blanks_spec, trim_end_spec};
use crate::ast::parser::{line_kind, LineInfo, LineKind};
use crate::ast::source::span;
use crate::ast::symbols::{Delimiter, DelimiterKind};

verus! {

/// The line that starts at `pos` in a region ending at `b`: its text up to
/// the next line feed (or `b`), trimmed of blanks, its kind, and where the
/// next line starts.
pub open spec fn line_at(s: Seq<char>, pos: int, b: int) -> LineInfo {
    let le = find_spec(s, pos, b, '\n');
    let start = skip_blanks_spec(s, pos, le);
    let end = trim_end_spec(s, start, le);
    LineInfo {
        start: start as usize,
        end: end as usize,
        next: (if le < b {
            le + 1
        } else {
            b
        }) as usize,
        kind: line_kind(s, start, end),
    }
}

pub proof fn lemma_skip_blanks_bounds(s: Seq<char>, a: int, b: int)
    requires
        a <= b,
    ensures
        a <= skip_blanks_spec(s, a, b) <= b,
    decreases b - a,
{
    if a < b && is_blank(s[a]) {
        lemma_skip_blanks_bounds(s, a + 1, b);
    }
}

pub proof fn lemma_trim_end_bounds(s: Seq<char>, a: int, b: int)
    requires
        a <= b,
    ensures
        a <= trim_end_spec(s, a, b) <= b,
    decreases b - a,
{
    if a < b && is_blank(s[b - 1]) {
        lemma_trim_end_bounds(s, a, b - 1);
    }
}

/// A line lies inside its region, and the next one starts after it.
pub proof fn lemma_line_at_bounds(s: Seq<char>, pos: int, b: int)
    requires
        0 <= pos < b,
        b <= s.len(),
        b <= usize::MAX,
    ensures
        pos <= line_at(s, pos, b).start <= line_at(s, pos, b).end <= b,
        pos < line_at(s, pos, b).next <= b,
        line_at(s, pos, b).start == skip_blanks_spec(s, pos, find_spec(s, pos, b, '\n')),
        line_at(s, pos, b).end == trim_end_spec(
            s,
            skip_blanks_spec(s, pos, find_spec(s, pos, b, '\n')),
            find_spec(s, pos, b, '\n'),
        ),
{
    let le = find_spec(s, pos, b, '\n');
    lemma_find_bounds(s, pos, b, '\n');
    lemma_skip_blanks_bounds(s, pos, le);
    lemma_trim_end_bounds(s, skip_blanks_spec(s, pos, le), le);
}

pub proof fn lemma_find_cut(s: Seq<char>, a: int, m: int, b: int, c: char)
    requires
        a <= m <= b,
        find_spec(s, a, b, c) < m,
    ensures
        find_spec(s, a, m, c) == find_spec(s, a, b, c),
    decreases b - a,
{
    lemma_find_bounds(s, a, b, c);
    if a < m && s[a] != c {
        lemma_find_bounds(s, a + 1, b, c);
        lemma_find_cut(s, a + 1, m, b, c);
    }
}

/// A line that ends with a line feed before `m` is the same in a region
/// cut at `m`.
pub proof fn lemma_line_at_cut(s: Seq<char>, pos: int, m: int, b: int)
    requires
        0 <= pos < m <= b,
        b <= s.len(),
        b <= usize::MAX,
        line_at(s, pos, b).next <= m,
    ensures
        line_at(s, pos, m) == line_at(s, pos, b),
{
    lemma_find_bounds(s, pos, b, '\n');
    if m < b {
        lemma_find_cut(s, pos, m, b, '\n');
    }
}

/// Whether `mid` is the start of a line reached from `pos`, going line by
/// line in a region ending at `b`.
pub open spec fn reaches(s: Seq<char>, pos: int, mid: int, b: int) -> bool
    decreases b - pos,
{
    if pos == mid {
        true
    } else if 0 <= pos < mid && mid <= b && b <= s.len() && b <= usize::MAX {
        let next = line_at(s, pos, b).next as int;
        if pos < next <= b {
            reaches(s, next, mid, b)
        } else {
            false
        }
    } else {
        false
    }
}

/// The delimiter a line stands for in the body, if any.
pub open spec fn line_delimiter(s: Seq<char>, line: LineInfo) -> Option<Delimiter> {
    let range = span(s, line.start as int, line.end as int);
    match line.kind {
        LineKind::SectionSplit => Some(Delimiter { kind: DelimiterKind::SectionSplit, range }),
        LineKind::SectionMerge => Some(Delimiter { kind: DelimiterKind::SectionMerge, range }),
        LineKind::SubSectionDelimiter => Some(Delimiter { kind: DelimiterKind::SubSection, range }),
        _ => None,
    }
}

/// The delimiters of the lines from `pos` up to `stop`, in a region ending
/// at `b`, in order.
pub open spec fn delimiters_from(s: Seq<char>, pos: int, stop: int, b: int) -> Seq<Delimiter>
    decreases stop - pos,
{
    if 0 <= pos < stop && stop <= b && b <= s.len() && b <= usize::MAX {
        let line = line_at(s, pos, b);
        if pos < line.next <= stop {
            let rest = delimiters_from(s, line.next as int, stop, b);
            match line_delimiter(s, line) {
                Some(d) => seq![d] + rest,
                None => rest,
            }
        } else {
            Seq::empty()
        }
    } else {
        Seq::empty()
    }
}

/// The first `---` line from `pos` to `b`, if any.
pub open spec fn header_line_from(s: Seq<char>, pos: int, b: int) -> Option<LineInfo>
    decreases b - pos,
{
    if 0 <= pos < b && b <= s.len() && b <= usize::MAX {
        let line = line_at(s, pos, b);
        if line.kind is HeaderDelimiter {
            Some(line)
        } else if pos < line.next <= b {
            header_line_from(s, line.next as int, b)
        } else {
            None
        }
    } else {
        None
    }
}

/// Going one more line keeps the start reached.
pub proof fn lemma_reaches_step(s: Seq<char>, a: int, pos: int, b: int)
    requires
        reaches(s, a, pos, b),
        0 <= a <= pos < b,
        b <= s.len(),
        b <= usize::MAX,
    ensures
        reaches(s, a, line_at(s, pos, b).next as int, b),
        delimiters_from(s, a, line_at(s, pos, b).next as int, b) == delimiters_from(s, a, pos, b) + (
        match line_delimiter(s, line_at(s, pos, b)) {
            Some(d) => seq![d],
            None => Seq::empty(),
        }),
    decreases pos - a,
{
    lemma_line_at_bounds(s, pos, b);
    let next = line_at(s, pos, b).next as int;
    if a == pos {
        lemma_line_at_bounds(s, a, b);
        assert(reaches(s, next, next, b));
        assert(delimiters_from(s, next, next, b) =~= Seq::<Delimiter>::empty());
        assert(delimiters_from(s, a, a, b) =~= Seq::<Delimiter>::empty());
        match line_delimiter(s, line_at(s, pos, b)) {
            Some(d) => {
                assert(delimiters_from(s, a, next, b) =~= seq![d]);
            },
            None => {},
        }
    } else {
        lemma_line_at_bounds(s, a, b);
        let a2 = line_at(s, a, b).next as int;
        lemma_reaches_after(s, a, pos, b);
        lemma_reaches_step(s, a2, pos, b);
        match line_delimiter(s, line_at(s, a, b)) {
            Some(d) => {
                assert(seq![d] + (delimiters_from(s, a2, pos, b) + match line_delimiter(s, line_at(s, pos, b)) {
                    Some(e) => seq![e],
                    None => Seq::empty(),
                }) =~= (seq![d] + delimiters_from(s, a2, pos, b)) + match line_delimiter(s, line_at(s, pos, b)) {
                    Some(e) => seq![e],
                    None => Seq::empty(),
                });
            },
            None => {},
        }
    }
}

/// A start reached from `a` other than `a` lies after it, and is reached
/// from the next line.
pub proof fn lemma_reaches_after(s: Seq<char>, a: int, pos: int, b: int)
    requires
        reaches(s, a, pos, b),
        a != pos,
    ensures
        0 <= a < pos <= b,
        b <= s.len(),
        b <= usize::MAX,
        reaches(s, line_at(s, a, b).next as int, pos, b),
        line_at(s, a, b).next > a,
{
}

/// Reaching is transitive.
pub proof fn lemma_reaches_trans(s: Seq<char>, a: int, mid: int, c: int, b: int)
    requires
        reaches(s, a, mid, b),
        reaches(s, mid, c, b),
    ensures
        reaches(s, a, c, b),
    decreases mid - a,
{
    if a != mid {
        lemma_reaches_after(s, a, mid, b);
        lemma_reaches_trans(s, line_at(s, a, b).next as int, mid, c, b);
        if mid != c {
            lemma_reaches_after(s, mid, c, b);
        }
    }
}

/// The delimiters up to a reached start, then from it.
pub proof fn lemma_delimiters_split(s: Seq<char>, a: int, mid: int, stop: int, b: int)
    requires
        reaches(s, a, mid, b),
        mid <= stop <= b,
        0 <= a,
        b <= s.len(),
        b <= usize::MAX,
    ensures
        delimiters_from(s, a, stop, b) == delimiters_from(s, a, mid, b) + delimiters_from(s, mid, stop, b),
    decreases mid - a,
{
    if a == mid {
        assert(delimiters_from(s, a, a, b) =~= Seq::<Delimiter>::empty());
        assert(delimiters_from(s, a, stop, b) =~= Seq::<Delimiter>::empty() + delimiters_from(s, mid, stop, b));
    } else {
        lemma_reaches_after(s, a, mid, b);
        let a2 = line_at(s, a, b).next as int;
        lemma_delimiters_split(s, a2, mid, stop, b);
        match line_delimiter(s, line_at(s, a, b)) {
            Some(d) => {
                assert(seq![d] + (delimiters_from(s, a2, mid, b) + delimiters_from(s, mid, stop, b)) =~= (seq![d]
                    + delimiters_from(s, a2, mid, b)) + delimiters_from(s, mid, stop, b));
            },
            None => {},
        }
    }
}

/// The lines from `a` to a reached start `m` are the same in the region cut
/// at `m`.
pub proof fn lemma_delimiters_cut(s: Seq<char>, a: int, m: int, b: int)
    requires
        reaches(s, a, m, b),
        0 <= a,
        m <= b,
        b <= s.len(),
        b <= usize::MAX,
    ensures
        delimiters_from(s, a, m, m) == delimiters_from(s, a, m, b),
        has_content_from(s, a, m, m) == has_content_from(s, a, m, b),
        reaches(s, a, m, m),
    decreases m - a,
{
    if a != m {
        lemma_reaches_after(s, a, m, b);
        lemma_line_at_bounds(s, a, b);
        lemma_line_at_cut(s, a, m, b);
        let a2 = line_at(s, a, b).next as int;
        lemma_delimiters_cut(s, a2, m, b);
    }
}

/// Whether some line from `pos` up to `stop`, in a region ending at `b`, is
/// neither blank nor a comment.
pub open spec fn has_content_from(s: Seq<char>, pos: int, stop: int, b: int) -> bool
    decreases stop - pos,
{
    if 0 <= pos < stop && stop <= b && b <= s.len() && b <= usize::MAX {
        let line = line_at(s, pos, b);
        if pos < line.next <= stop {
            !(line.kind is Blank || line.kind is Comment) || has_content_from(s, line.next as int, stop, b)
        } else {
            false
        }
    } else {
        false
    }
}

/// Lines that are all blank or comments hold no delimiter.
pub proof fn lemma_no_content_no_delimiters(s: Seq<char>, a: int, b: int)
    requires
        !has_content_from(s, a, b, b),
    ensures
        delimiters_from(s, a, b, b) == Seq::<Delimiter>::empty(),
    decreases b - a,
{
    if 0 <= a < b && b <= s.len() && b <= usize::MAX {
        let line = line_at(s, a, b);
        if a < line.next <= b {
            lemma_no_content_no_delimiters(s, line.next as int, b);
        }
    }
}

} // verus!

verus! {

/// How many sub-sections a section gets from its lines `pos..b`, given
/// `count` `++` lines already passed and the current sub-section starting at
/// `sub_start`: one per `++` line, and one for the lines after the last, if
/// they hold content or there was no `++` line.
pub open spec fn sub_section_count(s: Seq<char>, pos: int, sub_start: int, count: nat, b: int) -> nat
    decreases b - pos,
{
    if 0 <= pos < b && b <= s.len() && b <= usize::MAX && pos < line_at(s, pos, b).next <= b {
        let line = line_at(s, pos, b);
        if line.kind is SubSectionDelimiter {
            sub_section_count(s, line.next as int, line.next as int, count + 1, b)
        } else {
            sub_section_count(s, line.next as int, sub_start, count, b)
        }
    } else if has_content_from(s, sub_start, b, b) || count == 0 {
        count + 1
    } else {
        count
    }
}

/// The shape of the sections read from the body lines `pos..b`, given the
/// current section starting at `start` and whether it merges: for each
/// section, in order, whether it merges with the one before and how many
/// sub-sections it has. A run of lines between `--` and `<<` lines makes a
/// section when it holds content; a section merges when a `<<` line comes
/// right before it.
pub open spec fn section_shapes(s: Seq<char>, pos: int, start: int, merge: bool, b: int) -> Seq<(bool, nat)>
    decreases b - pos,
{
    if 0 <= pos < b && b <= s.len() && b <= usize::MAX && pos < line_at(s, pos, b).next <= b {
        let line = line_at(s, pos, b);
        if line.kind is SectionSplit || line.kind is SectionMerge {
            let rest = section_shapes(s, line.next as int, line.next as int, line.kind is SectionMerge, b);
            if has_content_from(s, start, pos, pos) {
                seq![(merge, sub_section_count(s, start, start, 0, pos))] + rest
            } else {
                rest
            }
        } else {
            section_shapes(s, line.next as int, start, merge, b)
        }
    } else if has_content_from(s, start, b, b) {
        seq![(merge, sub_section_count(s, start, start, 0, b))]
    } else {
        Seq::empty()
    }
}

} // verus!
