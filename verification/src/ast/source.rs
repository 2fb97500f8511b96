use vstd::prelude::*;

use crate::range::{Point, Range};

verus! {

/// The number of bytes of a character in UTF-8.
pub open spec fn utf8_width(c: char) -> int {
    if (c as u32) < 0x80 {
        1
    } else if (c as u32) < 0x800 {
        2
    } else if (c as u32) < 0x10000 {
        3
    } else {
        4
    }
}

/// The byte offset of the character at index `i`.
pub open spec fn byte_offset(s: Seq<char>, i: int) -> int
    decreases i,
{
    if i <= 0 {
        0
    } else {
        byte_offset(s, i - 1) + utf8_width(s[i - 1])
    }
}

/// The row and byte column of the character at index `i`: a line feed
/// starts a new row.
pub open spec fn point_at(s: Seq<char>, i: int) -> Point
    decreases i,
{
    if i <= 0 {
        Point { row: 0, column: 0 }
    } else {
        let p = point_at(s, i - 1);
        if s[i - 1] == '\n' {
            Point { row: (p.row + 1) as usize, column: 0 }
        } else {
            Point { row: p.row, column: (p.column + utf8_width(s[i - 1])) as usize }
        }
    }
}

/// The span of the characters `start..end` of `s`.
pub open spec fn span(s: Seq<char>, start: int, end: int) -> Range {
    Range {
        start_byte: byte_offset(s, start) as usize,
        end_byte: byte_offset(s, end) as usize,
        start_point: point_at(s, start),
        end_point: point_at(s, end),
    }
}

proof fn lemma_offsets_bounded(s: Seq<char>, i: int)
    requires
        0 <= i <= s.len(),
    ensures
        0 <= byte_offset(s, i) <= 4 * i,
        point_at(s, i).row <= i,
        point_at(s, i).column <= byte_offset(s, i),
    decreases i,
{
    if i > 0 {
        lemma_offsets_bounded(s, i - 1);
    }
}

/// The text of a document, with the byte offset and the point of every
/// character index.
#[derive(Debug)]
pub struct SourceText<'a> {
    text: &'a str,
    chars: Vec<char>,
    offsets: Vec<usize>,
    points: Vec<Point>,
}

impl<'a> SourceText<'a> {
    pub closed spec fn spec_chars(&self) -> Seq<char> {
        self.chars@
    }

    pub closed spec fn wf(&self) -> bool {
        &&& self.text@ == self.chars@
        &&& self.chars@.len() <= usize::MAX / 8
        &&& self.offsets@.len() == self.chars@.len() + 1
        &&& self.points@.len() == self.chars@.len() + 1
        &&& forall|i: int|
            0 <= i <= self.chars@.len() ==> #[trigger] self.offsets@[i] == byte_offset(self.chars@, i)
        &&& forall|i: int|
            0 <= i <= self.chars@.len() ==> #[trigger] self.points@[i] == point_at(self.chars@, i)
    }

    pub fn new(text: &'a str) -> (r: SourceText<'a>)
        requires
            text@.len() <= usize::MAX / 8,
        ensures
            r.wf(),
            r.spec_chars() == text@,
    {
        let n = text.unicode_len();
        let mut chars: Vec<char> = Vec::new();
        let mut offsets: Vec<usize> = Vec::new();
        let mut points: Vec<Point> = Vec::new();
        offsets.push(0);
        points.push(Point { row: 0, column: 0 });
        let mut offset: usize = 0;
        let mut row: usize = 0;
        let mut column: usize = 0;
        let mut i: usize = 0;
        while i < n
            invariant
                n == text@.len(),
                n <= usize::MAX / 8,
                i <= n,
                chars@ == text@.subrange(0, i as int),
                offsets@.len() == i + 1,
                points@.len() == i + 1,
                offset == byte_offset(text@, i as int),
                row == point_at(text@, i as int).row,
                column == point_at(text@, i as int).column,
                forall|j: int| 0 <= j <= i ==> #[trigger] offsets@[j] == byte_offset(text@, j),
                forall|j: int| 0 <= j <= i ==> #[trigger] points@[j] == point_at(text@, j),
            decreases n - i,
        {
            proof {
                lemma_offsets_bounded(text@, i as int + 1);
                lemma_offsets_bounded(text@, i as int);
            }
            let c = text.get_char(i);
            let code = c as u32;
            let width: usize = if code < 0x80 {
                1
            } else if code < 0x800 {
                2
            } else if code < 0x10000 {
                3
            } else {
                4
            };
            chars.push(c);
            offset = offset + width;
            if c == '\n' {
                row = row + 1;
                column = 0;
            } else {
                column = column + width;
            }
            offsets.push(offset);
            points.push(Point { row, column });
            i = i + 1;
            assert(chars@ =~= text@.subrange(0, i as int));
        }
        assert(chars@ =~= text@);
        SourceText { text, chars, offsets, points }
    }

    pub fn len(&self) -> (r: usize)
        requires
            self.wf(),
        ensures
            r == self.spec_chars().len(),
    {
        self.chars.len()
    }

    pub fn char_at(&self, i: usize) -> (r: char)
        requires
            self.wf(),
            i < self.spec_chars().len(),
        ensures
            r == self.spec_chars()[i as int],
    {
        self.chars[i]
    }

    /// The span of the characters `start..end`.
    pub fn range(&self, start: usize, end: usize) -> (r: Range)
        requires
            self.wf(),
            start <= end <= self.spec_chars().len(),
        ensures
            r == span(self.spec_chars(), start as int, end as int),
    {
        Range {
            start_byte: self.offsets[start],
            end_byte: self.offsets[end],
            start_point: self.points[start],
            end_point: self.points[end],
        }
    }

    /// The characters `start..end` as a string.
    pub fn text(&self, start: usize, end: usize) -> (r: String)
        requires
            self.wf(),
            start <= end <= self.spec_chars().len(),
        ensures
            r@ == self.spec_chars().subrange(start as int, end as int),
    {
        String::from_str(self.text.substring_char(start, end))
    }

    /// The characters `start..end` as a string slice.
    pub fn slice(&self, start: usize, end: usize) -> (r: &'a str)
        requires
            self.wf(),
            start <= end <= self.spec_chars().len(),
        ensures
            r@ == self.spec_chars().subrange(start as int, end as int),
    {
        self.text.substring_char(start, end)
    }
}

} // verus!
