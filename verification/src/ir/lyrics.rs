use vstd::prelude::*;

use crate::ast::lyrics::{LyricOperatorKind, LyricSpecialChar};
use crate::ast::symbols::{LyricStringId, ScopeId};
use crate::ir::utils::UnderlineRange;

verus! {

/// A lyric line laid out in columns, with its operators and underlines.
#[derive(Debug)]
pub struct LyricLineIR {
    pub sid: ScopeId,
    pub columns: Vec<LyricColumnIR>,
    pub operators: Vec<LyricOperatorKind>,
    pub underlines: Vec<UnderlineRange>,
}

impl LyricLineIR {
    pub fn new(sid: ScopeId) -> (r: LyricLineIR)
        ensures
            r.sid == sid,
            r.columns@.len() == 0,
            r.operators@.len() == 0,
            r.underlines@.len() == 0,
    {
        LyricLineIR { sid, columns: Vec::new(), operators: Vec::new(), underlines: Vec::new() }
    }

    /// Records the underlines of the line, over its string pieces numbered
    /// across the line.
    pub fn fit_underlines(&mut self, underlines: &[UnderlineRange])
        ensures
            final(self).underlines@ == underlines@,
            final(self).sid == old(self).sid,
            final(self).columns@ == old(self).columns@,
            final(self).operators@ == old(self).operators@,
    {
        let mut copy: Vec<UnderlineRange> = Vec::new();
        let n = underlines.len();
        let mut i: usize = 0;
        while i < n
            invariant
                n == underlines@.len(),
                i <= n,
                copy@ == underlines@.subrange(0, i as int),
            decreases n - i,
        {
            copy.push(underlines[i]);
            i = i + 1;
            assert(copy@ =~= underlines@.subrange(0, i as int));
        }
        assert(underlines@.subrange(0, n as int) =~= underlines@);
        self.underlines = copy;
    }
}

/// A lyric column laid out: its chunks, the operators inside it, and how many
/// solfa columns it spans.
#[derive(Debug)]
pub struct LyricColumnIR {
    pub sid: ScopeId,
    pub chunks: Vec<LyricChunkIR>,
    pub operators: Vec<LyricOperatorKind>,
    pub span: usize,
    pub placeholder: bool,
}

impl LyricColumnIR {
    pub fn new(sid: ScopeId, span: usize) -> (r: LyricColumnIR)
        ensures
            r.sid == sid,
            r.span == span,
            r.chunks@.len() == 0,
            r.operators@.len() == 0,
            !r.placeholder,
    {
        LyricColumnIR { sid, chunks: Vec::new(), operators: Vec::new(), span, placeholder: false }
    }

    pub fn add_chunk(&mut self, partials: Vec<LyricStringIR>)
        ensures
            final(self).chunks@.len() == old(self).chunks@.len() + 1,
            forall|i: int| 0 <= i < old(self).chunks@.len() ==> final(self).chunks@[i] == old(self).chunks@[i],
            final(self).chunks@.last().partials@ == partials@,
            final(self).sid == old(self).sid,
            final(self).span == old(self).span,
            final(self).operators@ == old(self).operators@,
            final(self).placeholder == old(self).placeholder,
    {
        self.chunks.push(LyricChunkIR { partials });
    }
}

/// One chunk of a lyric column: the pieces of one string.
#[derive(Debug)]
pub struct LyricChunkIR {
    pub partials: Vec<LyricStringIR>,
}

/// A piece of lyric text: stored text, or a special character.
#[derive(Debug, Clone, Copy, PartialEq, Eq, Structural)]
pub enum LyricStringIR {
    Reference(LyricStringId),
    Special(LyricSpecialChar),
}

} // verus!
