use vstd::prelude::*;

verus! {

/// A row / column location in the source text.
#[derive(Debug, Clone, Copy, PartialEq, Eq, Structural)]
pub struct Point {
    pub row: usize,
    pub column: usize,
}

/// A span of the source text, by bytes and by points.
#[derive(Debug, Clone, Copy, PartialEq, Eq, Structural)]
pub struct Range {
    pub start_byte: usize,
    pub end_byte: usize,
    pub start_point: Point,
    pub end_point: Point,
}

/// A line / column position, ordered line first.
#[derive(Debug, Clone, Copy, PartialEq, Eq, Structural)]
pub struct Position {
    pub line: usize,
    pub column: usize,
}

/// Lexicographic order on positions: by line, then by column.
pub open spec fn position_le(a: Position, b: Position) -> bool {
    a.line < b.line || (a.line == b.line && a.column <= b.column)
}

pub open spec fn position_lt(a: Position, b: Position) -> bool {
    a.line < b.line || (a.line == b.line && a.column < b.column)
}

fn le(a: &Position, b: &Position) -> (r: bool)
    ensures
        r == position_le(*a, *b),
{
    a.line < b.line || (a.line == b.line && a.column <= b.column)
}

fn lt(a: &Position, b: &Position) -> (r: bool)
    ensures
        r == position_lt(*a, *b),
{
    a.line < b.line || (a.line == b.line && a.column < b.column)
}

impl Position {
    pub fn new(line: usize, column: usize) -> (r: Position)
        ensures
            r.line == line,
            r.column == column,
    {
        Position { line, column }
    }

    pub open spec fn spec_from_point(point: Point) -> Position {
        Position { line: point.row, column: point.column }
    }

    pub fn from_point(point: Point) -> (r: Position)
        ensures
            r == Position::spec_from_point(point),
    {
        Position { line: point.row, column: point.column }
    }
}

impl Range {
    /// The span from the start of `self` to the end of `other`.
    pub open spec fn spec_merge(self, other: Range) -> Range {
        Range {
            start_byte: self.start_byte,
            end_byte: other.end_byte,
            start_point: self.start_point,
            end_point: other.end_point,
        }
    }

    pub fn merge(&self, other: Range) -> (r: Range)
        ensures
            r == self.spec_merge(other),
    {
        Range {
            start_byte: self.start_byte,
            end_byte: other.end_byte,
            start_point: self.start_point,
            end_point: other.end_point,
        }
    }

    /// The empty span at the start of `self`.
    pub open spec fn spec_start(self) -> Range {
        Range {
            start_byte: self.start_byte,
            end_byte: self.start_byte,
            start_point: self.start_point,
            end_point: self.start_point,
        }
    }

    pub fn start(&self) -> (r: Range)
        ensures
            r == self.spec_start(),
    {
        Range {
            start_byte: self.start_byte,
            end_byte: self.start_byte,
            start_point: self.start_point,
            end_point: self.start_point,
        }
    }

    /// The empty span at the end of `self`.
    pub open spec fn spec_end(self) -> Range {
        Range {
            start_byte: self.end_byte,
            end_byte: self.end_byte,
            start_point: self.end_point,
            end_point: self.end_point,
        }
    }

    pub fn end(&self) -> (r: Range)
        ensures
            r == self.spec_end(),
    {
        Range {
            start_byte: self.end_byte,
            end_byte: self.end_byte,
            start_point: self.end_point,
            end_point: self.end_point,
        }
    }

    /// The row the span starts on.
    pub fn line(&self) -> (r: usize)
        ensures
            r == self.start_point.row,
    {
        self.start_point.row
    }

    /// Whether `pos` lies between the start and the end of the span, both included.
    pub open spec fn spec_contains(self, pos: Position) -> bool {
        position_le(Position::spec_from_point(self.start_point), pos) && position_le(
            pos,
            Position::spec_from_point(self.end_point),
        )
    }

    pub fn contains(&self, pos: &Position) -> (r: bool)
        ensures
            r == self.spec_contains(*pos),
    {
        let start = Position::from_point(self.start_point);
        let end = Position::from_point(self.end_point);
        le(&start, pos) && le(pos, &end)
    }

    /// Whether `pos` lies in the span, its end excluded.
    pub open spec fn spec_overlaps(self, pos: Position) -> bool {
        position_le(Position::spec_from_point(self.start_point), pos) && position_lt(
            pos,
            Position::spec_from_point(self.end_point),
        )
    }

    pub fn overlaps(&self, pos: &Position) -> (r: bool)
        ensures
            r == self.spec_overlaps(*pos),
    {
        let start = Position::from_point(self.start_point);
        let end = Position::from_point(self.end_point);
        le(&start, pos) && lt(pos, &end)
    }
}

/// A position that a span overlaps is also one that it contains.
pub proof fn lemma_overlaps_implies_contains(range: Range, pos: Position)
    ensures
        range.spec_overlaps(pos) ==> range.spec_contains(pos),
{
}

/// Merging a span with itself gives the span back; the start and the end of a
/// merge are those of the first and of the second span.
pub proof fn lemma_merge_ends(a: Range, b: Range)
    ensures
        a.spec_merge(a) == a,
        a.spec_merge(b).spec_start() == a.spec_start(),
        a.spec_merge(b).spec_end() == b.spec_end(),
{
}

} // verus!
