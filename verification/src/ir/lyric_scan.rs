use vstd::prelude::*;

use crate::ast::lyrics::{LyricChunk, LyricChunkKind, LyricLine, LyricOperatorKind, LyricString, LyricStringKind, LyricToken};
use crate::ast::symbols::{SymbolId, SymbolTree};
use crate::diagnostics::types::Diagnostic;
use crate::ir::lyrics::{LyricColumnIR, LyricLineIR, LyricStringIR};
use crate::ir::scan::{marks_below, shift_marks, trailing_diag, underline_fold};

verus! {

/// The pieces of a lyric string after its first `k` tokens, and its underline
/// markers with the piece they stand before.
pub open spec fn string_scan(tokens: Seq<LyricString>, k: int) -> (Seq<LyricStringIR>, Seq<(SymbolId, usize)>)
    decreases k,
{
    if k <= 0 {
        (Seq::empty(), Seq::empty())
    } else {
        let prev = string_scan(tokens, k - 1);
        let t = tokens[k - 1];
        match t.value {
            LyricStringKind::UnderlineMarker => (prev.0, prev.1.push((t.sid, prev.0.len() as usize))),
            LyricStringKind::Reference(id) => (prev.0.push(LyricStringIR::Reference(id)), prev.1),
            LyricStringKind::SpecialChar(c) => (prev.0.push(LyricStringIR::Special(c)), prev.1),
        }
    }
}

/// A lyric column after its first `k` chunks: the operators inside it,
/// whether it holds a placeholder, the pieces of each of its strings, its
/// underline markers (by piece of the column), and its number of pieces.
pub open spec fn column_scan(chunks: Seq<LyricChunk>, k: int) -> (
    Seq<LyricOperatorKind>,
    bool,
    Seq<Seq<LyricStringIR>>,
    Seq<(SymbolId, usize)>,
    int,
)
    decreases k,
{
    if k <= 0 {
        (Seq::empty(), false, Seq::empty(), Seq::empty(), 0)
    } else {
        let prev = column_scan(chunks, k - 1);
        match chunks[k - 1].value {
            LyricChunkKind::Space => (prev.0.push(LyricOperatorKind::Space), prev.1, prev.2, prev.3, prev.4),
            LyricChunkKind::Newline => (prev.0.push(LyricOperatorKind::Newline), prev.1, prev.2, prev.3, prev.4),
            LyricChunkKind::Placeholder => (prev.0, true, prev.2, prev.3, prev.4),
            LyricChunkKind::String(tokens) => {
                let s = string_scan(tokens@, tokens@.len() as int);
                (prev.0, prev.1, prev.2.push(s.0), prev.3 + shift_marks(s.1, prev.4), prev.4 + s.0.len())
            },
        }
    }
}

/// The whole scan of a column.
pub open spec fn column_result(chunks: Seq<LyricChunk>) -> (
    Seq<LyricOperatorKind>,
    bool,
    Seq<Seq<LyricStringIR>>,
    Seq<(SymbolId, usize)>,
    int,
) {
    column_scan(chunks, chunks.len() as int)
}

/// A lyric line after its first `k` tokens: its operators, its underline
/// markers (by piece of the line), and its number of pieces.
pub open spec fn lyric_line_scan(tokens: Seq<LyricToken>, k: int) -> (
    Seq<LyricOperatorKind>,
    Seq<(SymbolId, usize)>,
    int,
)
    decreases k,
{
    if k <= 0 {
        (Seq::empty(), Seq::empty(), 0)
    } else {
        let prev = lyric_line_scan(tokens, k - 1);
        match tokens[k - 1] {
            LyricToken::Column(column) => {
                let c = column_result(column.chunks@);
                (prev.0, prev.1 + shift_marks(c.3, prev.2), prev.2 + c.4)
            },
            LyricToken::Operator(op) => (prev.0.push(op.value), prev.1, prev.2),
        }
    }
}

/// The columns of a lyric line, in order.
pub open spec fn line_columns(tokens: Seq<LyricToken>, k: int) -> Seq<crate::ast::lyrics::LyricColumn>
    decreases k,
{
    if k <= 0 {
        Seq::empty()
    } else {
        match tokens[k - 1] {
            LyricToken::Column(column) => line_columns(tokens, k - 1).push(column),
            LyricToken::Operator(_) => line_columns(tokens, k - 1),
        }
    }
}

/// A lyric column laid out from its chunks.
pub open spec fn lyric_column_layout(r: LyricColumnIR, column: crate::ast::lyrics::LyricColumn) -> bool {
    let c = column_result(column.chunks@);
    &&& r.sid == column.sid
    &&& r.span == column.span
    &&& r.operators@ == c.0
    &&& r.placeholder == c.1
    &&& r.chunks@.len() == c.2.len()
    &&& forall|i: int| 0 <= i < c.2.len() ==> (#[trigger] r.chunks@[i]).partials@ == c.2[i]
}

/// A lyric line laid out: a column for each of its columns, its operators,
/// and the underlines over its pieces.
pub open spec fn lyric_line_layout(r: LyricLineIR, line: LyricLine) -> bool {
    let n = line.tokens@.len() as int;
    let columns = line_columns(line.tokens@, n);
    let s = lyric_line_scan(line.tokens@, n);
    &&& r.sid == line.sid
    &&& r.operators@ == s.0
    &&& r.columns@.len() == columns.len()
    &&& forall|i: int| 0 <= i < columns.len() ==> lyric_column_layout(#[trigger] r.columns@[i], columns[i])
    &&& r.underlines@ == underline_fold(s.1).1
}

/// The diagnostic of a lyric line: an error for an underline left open.
pub open spec fn lyric_line_diags(tree: SymbolTree, line: LyricLine) -> Seq<Diagnostic> {
    let s = lyric_line_scan(line.tokens@, line.tokens@.len() as int);
    trailing_diag(tree, underline_fold(s.1).0, line.sid)
}

/// The number of pieces of a lyric line.
pub open spec fn lyric_line_width(line: LyricLine) -> int {
    lyric_line_scan(line.tokens@, line.tokens@.len() as int).2
}

/// The underline markers of a lyric line are symbols of the tree.
pub open spec fn lyric_ids_valid(tree: SymbolTree, line: LyricLine) -> bool {
    &&& line.sid < tree.spec_scopes().len()
    &&& marks_below(
        lyric_line_scan(line.tokens@, line.tokens@.len() as int).1,
        tree.spec_symbols().len() as int,
    )
}

pub proof fn lemma_string_scan_len(tokens: Seq<LyricString>, k: int)
    requires
        0 <= k,
    ensures
        string_scan(tokens, k).0.len() <= k,
    decreases k,
{
    if k > 0 {
        lemma_string_scan_len(tokens, k - 1);
    }
}

pub proof fn lemma_string_marks_bound(tokens: Seq<LyricString>, k: int)
    requires
        0 <= k,
    ensures
        forall|j: int|
            0 <= j < string_scan(tokens, k).1.len() ==> (#[trigger] string_scan(tokens, k).1[j]).1
                <= string_scan(tokens, k).0.len(),
    decreases k,
{
    if k > 0 {
        lemma_string_marks_bound(tokens, k - 1);
        let prev = string_scan(tokens, k - 1);
        let cur = string_scan(tokens, k);
        assert forall|j: int| 0 <= j < cur.1.len() implies (#[trigger] cur.1[j]).1 <= cur.0.len() by {
            if j < prev.1.len() {
                assert(cur.1[j] == prev.1[j]);
            }
        }
    }
}

pub proof fn lemma_string_scan_monotone(tokens: Seq<LyricString>, k: int, j: int)
    requires
        0 <= k <= j,
    ensures
        string_scan(tokens, k).0.len() <= string_scan(tokens, j).0.len(),
    decreases j - k,
{
    if k < j {
        lemma_string_scan_monotone(tokens, k, j - 1);
    }
}

pub proof fn lemma_column_scan_nonneg(chunks: Seq<LyricChunk>, k: int)
    requires
        0 <= k,
    ensures
        column_scan(chunks, k).4 >= 0,
    decreases k,
{
    if k > 0 {
        lemma_column_scan_nonneg(chunks, k - 1);
    }
}

pub proof fn lemma_column_scan_monotone(chunks: Seq<LyricChunk>, k: int, j: int)
    requires
        0 <= k <= j,
    ensures
        0 <= column_scan(chunks, k).4 <= column_scan(chunks, j).4,
    decreases j - k,
{
    lemma_column_scan_nonneg(chunks, k);
    if k < j {
        lemma_column_scan_monotone(chunks, k, j - 1);
    }
}

pub proof fn lemma_line_scan_nonneg(tokens: Seq<LyricToken>, k: int)
    requires
        0 <= k,
    ensures
        lyric_line_scan(tokens, k).2 >= 0,
    decreases k,
{
    if k > 0 {
        lemma_line_scan_nonneg(tokens, k - 1);
        if let LyricToken::Column(column) = tokens[k - 1] {
            lemma_column_scan_nonneg(column.chunks@, column.chunks@.len() as int);
        }
    }
}

pub proof fn lemma_line_scan_monotone(tokens: Seq<LyricToken>, k: int, j: int)
    requires
        0 <= k <= j,
    ensures
        0 <= lyric_line_scan(tokens, k).2 <= lyric_line_scan(tokens, j).2,
    decreases j - k,
{
    lemma_line_scan_nonneg(tokens, k);
    if k < j {
        lemma_line_scan_monotone(tokens, k, j - 1);
        if let LyricToken::Column(column) = tokens[j - 1] {
            lemma_column_scan_nonneg(column.chunks@, column.chunks@.len() as int);
        }
    }
}

/// Moving marks twice is moving them once by the sum, where nothing overflows.
pub proof fn lemma_shift_shift(marks: Seq<(SymbolId, usize)>, a: int, b: int)
    requires
        0 <= a,
        0 <= b,
        forall|j: int| 0 <= j < marks.len() ==> (#[trigger] marks[j]).1 + a + b <= usize::MAX,
    ensures
        shift_marks(shift_marks(marks, a), b) == shift_marks(marks, a + b),
{
    assert(shift_marks(shift_marks(marks, a), b) =~= shift_marks(marks, a + b));
}

pub proof fn lemma_shift_concat(x: Seq<(SymbolId, usize)>, y: Seq<(SymbolId, usize)>, a: int)
    ensures
        shift_marks(x + y, a) == shift_marks(x, a) + shift_marks(y, a),
{
    assert(shift_marks(x + y, a) =~= shift_marks(x, a) + shift_marks(y, a));
}


/// The string tokens of a chunk are symbols below `n`.
pub open spec fn chunk_strings_below(chunk: LyricChunk, n: int) -> bool {
    match chunk.value {
        LyricChunkKind::String(tokens) => forall|j: int|
            0 <= j < tokens@.len() ==> (#[trigger] tokens@[j]).sid < n,
        _ => true,
    }
}

pub open spec fn column_strings_below(column: crate::ast::lyrics::LyricColumn, n: int) -> bool {
    forall|k: int| 0 <= k < column.chunks@.len() ==> chunk_strings_below(#[trigger] column.chunks@[k], n)
}

pub open spec fn token_strings_below(token: LyricToken, n: int) -> bool {
    match token {
        LyricToken::Column(column) => column_strings_below(column, n),
        LyricToken::Operator(_) => true,
    }
}

/// Every string token of the line is a symbol below `n`.
pub open spec fn line_strings_below(tokens: Seq<LyricToken>, n: int) -> bool {
    forall|i: int| 0 <= i < tokens.len() ==> token_strings_below(#[trigger] tokens[i], n)
}

pub proof fn lemma_string_marks_below(tokens: Seq<LyricString>, k: int, n: int)
    requires
        0 <= k <= tokens.len(),
        forall|j: int| 0 <= j < tokens.len() ==> (#[trigger] tokens[j]).sid < n,
    ensures
        marks_below(string_scan(tokens, k).1, n),
    decreases k,
{
    if k > 0 {
        lemma_string_marks_below(tokens, k - 1, n);
        let prev = string_scan(tokens, k - 1);
        let cur = string_scan(tokens, k);
        assert(tokens[k - 1].sid < n);
        assert forall|j: int| 0 <= j < cur.1.len() implies (#[trigger] cur.1[j]).0 < n by {
            if j < prev.1.len() {
                assert(cur.1[j] == prev.1[j]);
            }
        }
    }
}

proof fn lemma_concat_marks_below(a: Seq<(SymbolId, usize)>, b: Seq<(SymbolId, usize)>, off: int, n: int)
    requires
        marks_below(a, n),
        marks_below(b, n),
    ensures
        marks_below(a + shift_marks(b, off), n),
{
    let c = a + shift_marks(b, off);
    assert forall|j: int| 0 <= j < c.len() implies (#[trigger] c[j]).0 < n by {
        if j >= a.len() {
            assert(c[j] == shift_marks(b, off)[j - a.len()]);
        }
    }
}

pub proof fn lemma_column_marks_below(chunks: Seq<LyricChunk>, k: int, n: int)
    requires
        0 <= k <= chunks.len(),
        forall|i: int| 0 <= i < chunks.len() ==> chunk_strings_below(#[trigger] chunks[i], n),
    ensures
        marks_below(column_scan(chunks, k).3, n),
    decreases k,
{
    if k > 0 {
        lemma_column_marks_below(chunks, k - 1, n);
        assert(chunk_strings_below(chunks[k - 1], n));
        if let LyricChunkKind::String(tokens) = chunks[k - 1].value {
            lemma_string_marks_below(tokens@, tokens@.len() as int, n);
            let prev = column_scan(chunks, k - 1);
            lemma_concat_marks_below(prev.3, string_scan(tokens@, tokens@.len() as int).1, prev.4, n);
        }
    }
}

pub proof fn lemma_line_marks_below_strings(tokens: Seq<LyricToken>, k: int, n: int)
    requires
        0 <= k <= tokens.len(),
        line_strings_below(tokens, n),
    ensures
        marks_below(lyric_line_scan(tokens, k).1, n),
    decreases k,
{
    if k > 0 {
        lemma_line_marks_below_strings(tokens, k - 1, n);
        assert(token_strings_below(tokens[k - 1], n));
        if let LyricToken::Column(column) = tokens[k - 1] {
            lemma_column_marks_below(column.chunks@, column.chunks@.len() as int, n);
            let prev = lyric_line_scan(tokens, k - 1);
            lemma_concat_marks_below(prev.1, column_result(column.chunks@).3, prev.2, n);
        }
    }
}


pub proof fn lemma_column_scan_push(chunks: Seq<LyricChunk>, chunk: LyricChunk, k: int)
    requires
        0 <= k <= chunks.len(),
    ensures
        column_scan(chunks.push(chunk), k) == column_scan(chunks, k),
    decreases k,
{
    if k > 0 {
        lemma_column_scan_push(chunks, chunk, k - 1);
        assert(chunks.push(chunk)[k - 1] == chunks[k - 1]);
    }
}

pub proof fn lemma_line_scan_push(tokens: Seq<LyricToken>, token: LyricToken, k: int)
    requires
        0 <= k <= tokens.len(),
    ensures
        lyric_line_scan(tokens.push(token), k) == lyric_line_scan(tokens, k),
    decreases k,
{
    if k > 0 {
        lemma_line_scan_push(tokens, token, k - 1);
        assert(tokens.push(token)[k - 1] == tokens[k - 1]);
    }
}

} // verus!
