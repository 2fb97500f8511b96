use vstd::prelude::*;

use crate::assoc::{
    first_index, lemma_first_index_absent, lemma_first_index_bounds, lemma_first_index_char,
    lemma_first_index_push,
};
use crate::data_types::Voice;
use crate::range::{Position, Range};
use crate::text::{owned, str_eq};

verus! {

pub const ROOT_SCOPE_ID: usize = 0;

pub type SymbolId = usize;

pub type ScopeId = usize;

pub type VoiceId = usize;

pub type LyricStringId = usize;

pub type Comment = SymbolRef<String>;

pub type Field<T> = Option<SymbolRef<T>>;

/// A value tied to the symbol it was read from.
#[derive(Debug, Clone)]
pub struct SymbolRef<T> {
    pub sid: SymbolId,
    pub value: T,
}

/// What a symbol of the document stands for.
#[derive(Debug)]
pub enum SymbolKind {
    Key(String),
    Value(Value),
    Voice(VoiceId),
    Token,
}

impl SymbolKind {
    pub fn primitive_value(primitive: Primitive) -> (r: SymbolKind)
        ensures
            r == SymbolKind::Value(Value::Primitive(primitive)),
    {
        SymbolKind::Value(Value::Primitive(primitive))
    }

    /// The name of a key symbol.
    pub fn as_key_unchecked(&self) -> (r: &str)
        requires
            self is Key,
        ensures
            r@ == self->Key_0@,
    {
        match self {
            SymbolKind::Key(key) => key.as_str(),
            _ => "",
        }
    }
}

/// The type of a value written in the document.
#[derive(Debug, Clone, Copy, PartialEq, Eq, Structural)]
pub enum Primitive {
    String,
    Integer,
    Float,
    Boolean,
    Key,
    Mark,
    Dynamic,
    Jump,
    Tempo,
    Voice,
    Touch,
}

impl Primitive {
    /// The lower-case name of the type.
    pub open spec fn spec_text(self) -> Seq<char> {
        match self {
            Primitive::String => "string"@,
            Primitive::Integer => "integer"@,
            Primitive::Float => "float"@,
            Primitive::Boolean => "boolean"@,
            Primitive::Key => "key"@,
            Primitive::Mark => "mark"@,
            Primitive::Dynamic => "dynamic"@,
            Primitive::Jump => "jump"@,
            Primitive::Tempo => "tempo"@,
            Primitive::Voice => "voice"@,
            Primitive::Touch => "touch"@,
        }
    }

    pub fn to_string(&self) -> (r: String)
        ensures
            r@ == self.spec_text(),
    {
        match self {
            Primitive::String => owned("string"),
            Primitive::Integer => owned("integer"),
            Primitive::Float => owned("float"),
            Primitive::Boolean => owned("boolean"),
            Primitive::Key => owned("key"),
            Primitive::Mark => owned("mark"),
            Primitive::Dynamic => owned("dynamic"),
            Primitive::Jump => owned("jump"),
            Primitive::Tempo => owned("tempo"),
            Primitive::Voice => owned("voice"),
            Primitive::Touch => owned("touch"),
        }
    }
}

/// The type of an assigned value: a single value, or a list of values.
#[derive(Debug, Clone, Copy, PartialEq, Eq, Structural)]
pub enum Value {
    Primitive(Primitive),
    List(Primitive),
}

impl Value {
    /// `string` for a single value, `{string...}` for a list.
    pub open spec fn spec_text(self) -> Seq<char> {
        match self {
            Value::Primitive(p) => p.spec_text(),
            Value::List(p) => "{"@ + p.spec_text() + "...}"@,
        }
    }

    pub fn to_string(&self) -> (r: String)
        ensures
            r@ == self.spec_text(),
    {
        match self {
            Value::Primitive(p) => p.to_string(),
            Value::List(p) => {
                let mut out = owned("{");
                let inner = p.to_string();
                out.append(inner.as_str());
                out.append("...}");
                out
            },
        }
    }
}

/// A named piece of the document: where it stands, what it is, and its scope.
#[derive(Debug)]
pub struct Symbol {
    pub range: Range,
    pub kind: SymbolKind,
    pub scope: ScopeId,
}

/// The kinds of nested regions of a document.
#[derive(Debug, Clone, Copy, PartialEq, Eq, Structural)]
pub enum ScopeKind {
    Root,
    Header,
    DirectiveLine,
    AssignmentLine,
    Assignment,
    Body,
    Section,
    SubSection,
    SolfaLine,
    Pulse,
    LyricLine,
    LyricsColumn,
    LyricString,
    List,
}

impl ScopeKind {
    pub open spec fn spec_is_hidden(self) -> bool {
        self == ScopeKind::DirectiveLine || self == ScopeKind::List || self
            == ScopeKind::LyricString
    }

    /// Whether the scope is left out of outlines.
    pub fn is_hidden(&self) -> (r: bool)
        ensures
            r == self.spec_is_hidden(),
    {
        matches!(self, ScopeKind::DirectiveLine | ScopeKind::List | ScopeKind::LyricString)
    }

    pub fn is_solfa_line(&self) -> (r: bool)
        ensures
            r == (*self == ScopeKind::SolfaLine),
    {
        matches!(self, ScopeKind::SolfaLine)
    }
}

/// A region of the document, with its sub-regions and the symbols it holds.
#[derive(Debug)]
pub struct Scope {
    pub local_id: usize,
    pub range: Range,
    pub kind: ScopeKind,
    pub parent: Option<ScopeId>,
    pub children: Vec<ScopeId>,
    pub symbols: Vec<SymbolId>,
}

/// A delimiter line of the document.
#[derive(Debug, Clone, Copy)]
pub struct Delimiter {
    pub kind: DelimiterKind,
    pub range: Range,
}

#[derive(Debug, Clone, Copy, PartialEq, Eq, Structural)]
pub enum DelimiterKind {
    Header,
    SectionSplit,
    SectionMajor,
    SectionMerge,
    SubSection,
}

impl DelimiterKind {
    pub open spec fn spec_is_section(self) -> bool {
        self == DelimiterKind::SectionSplit || self == DelimiterKind::SectionMajor || self
            == DelimiterKind::SectionMerge
    }

    /// Whether the delimiter separates sections.
    pub fn is_section(&self) -> (r: bool)
        ensures
            r == self.spec_is_section(),
    {
        matches!(
            self,
            DelimiterKind::SectionSplit | DelimiterKind::SectionMajor | DelimiterKind::SectionMerge
        )
    }

    /// The text of the delimiter.
    pub open spec fn spec_text(self) -> Seq<char> {
        match self {
            DelimiterKind::Header => "---"@,
            DelimiterKind::SectionSplit => "--"@,
            DelimiterKind::SectionMajor => "=="@,
            DelimiterKind::SectionMerge => "<<"@,
            DelimiterKind::SubSection => "++"@,
        }
    }

    pub fn to_string(&self) -> (r: String)
        ensures
            r@ == self.spec_text(),
    {
        match self {
            DelimiterKind::Header => owned("---"),
            DelimiterKind::SectionSplit => owned("--"),
            DelimiterKind::SectionMajor => owned("=="),
            DelimiterKind::SectionMerge => owned("<<"),
            DelimiterKind::SubSection => owned("++"),
        }
    }
}

/// Side tables of a symbol tree: references of keys and voices, comments,
/// lyric text and delimiters.
#[derive(Debug)]
pub struct SymbolCache {
    key_refs: Vec<(String, Vec<SymbolId>)>,
    voice_defs: Vec<Voice>,
    voice_refs: Vec<(VoiceId, Vec<SymbolId>)>,
    comments: Vec<Comment>,
    lyrics: Vec<String>,
    delimiters: Vec<Delimiter>,
}

/// All the symbols and scopes of a document.
#[derive(Debug)]
pub struct SymbolTree {
    symbols: Vec<Symbol>,
    scopes: Vec<Scope>,
    cache: SymbolCache,
}

/// The names of the keys of a key table, in order.
pub open spec fn key_names(entries: Seq<(String, Vec<SymbolId>)>) -> Seq<Seq<char>> {
    entries.map_values(|e: (String, Vec<SymbolId>)| e.0@)
}

pub open spec fn voice_ids(entries: Seq<(VoiceId, Vec<SymbolId>)>) -> Seq<VoiceId> {
    entries.map_values(|e: (VoiceId, Vec<SymbolId>)| e.0)
}

/// Two scopes agree on everything but the symbols they hold.
pub open spec fn same_but_symbols(a: Scope, b: Scope) -> bool {
    a.local_id == b.local_id && a.range == b.range && a.kind == b.kind && a.parent == b.parent
        && a.children@ == b.children@
}

/// Two scopes agree on everything but the sub-scopes they hold.
pub open spec fn same_but_children(a: Scope, b: Scope) -> bool {
    a.local_id == b.local_id && a.range == b.range && a.kind == b.kind && a.parent == b.parent
        && a.symbols@ == b.symbols@
}

/// Two trees agree on their side tables: key and voice references, voices,
/// comments, lyrics and delimiters.
pub open spec fn same_tables(a: SymbolTree, b: SymbolTree) -> bool {
    &&& a.spec_lyrics() == b.spec_lyrics()
    &&& a.spec_voice_defs() == b.spec_voice_defs()
    &&& a.spec_comments() == b.spec_comments()
    &&& a.spec_delimiters() == b.spec_delimiters()
    &&& forall|k: Seq<char>| #[trigger] a.spec_key_refs(k) == b.spec_key_refs(k)
    &&& forall|v: VoiceId| #[trigger] a.spec_voice_refs(v) == b.spec_voice_refs(v)
    &&& a.spec_referenced_voices() == b.spec_referenced_voices()
}

/// `b` is `a` with more symbols, scopes and lyric chunks: what `a` holds
/// stays, but for the sub-scopes and symbols its scopes list, and the key
/// references are the same.
pub open spec fn tree_extends(a: SymbolTree, b: SymbolTree) -> bool {
    &&& a.spec_symbols().len() <= b.spec_symbols().len()
    &&& forall|i: int| 0 <= i < a.spec_symbols().len() ==> #[trigger] b.spec_symbols()[i] == a.spec_symbols()[i]
    &&& a.spec_scopes().len() <= b.spec_scopes().len()
    &&& forall|i: int|
        0 <= i < a.spec_scopes().len() ==> {
            &&& (#[trigger] b.spec_scopes()[i]).kind == a.spec_scopes()[i].kind
            &&& b.spec_scopes()[i].range == a.spec_scopes()[i].range
            &&& b.spec_scopes()[i].parent == a.spec_scopes()[i].parent
        }
    &&& a.spec_lyrics().len() <= b.spec_lyrics().len()
    &&& forall|i: int| 0 <= i < a.spec_lyrics().len() ==> #[trigger] b.spec_lyrics()[i] == a.spec_lyrics()[i]
    &&& forall|k: Seq<char>| #[trigger] b.spec_key_refs(k) == a.spec_key_refs(k)
}

/// Storing references to a key one after another, starting from a tree
/// where it has none, leaves them in the order stored; the first one stored
/// stays the key's definition however many follow.
pub proof fn lemma_key_refs_in_order(trees: Seq<SymbolTree>, key: Seq<char>, sids: Seq<SymbolId>)
    requires
        trees.len() == sids.len() + 1,
        trees[0].spec_key_refs(key).len() == 0,
        forall|i: int|
            0 <= i < sids.len() ==> #[trigger] trees[i + 1].spec_key_refs(key) == trees[i].spec_key_refs(key).push(
                sids[i],
            ),
    ensures
        trees.last().spec_key_refs(key) == sids,
        sids.len() > 0 ==> trees.last().spec_key_refs(key)[0] == sids[0],
    decreases sids.len(),
{
    if sids.len() > 0 {
        let n = sids.len() - 1;
        lemma_key_refs_in_order(trees.take(n + 1), key, sids.take(n));
        assert(trees.take(n + 1).last() == trees[n]);
        assert(trees.last() == trees[n + 1]);
        assert(sids.take(n).push(sids[n]) =~= sids);
    } else {
        assert(trees[0].spec_key_refs(key) =~= sids);
    }
}

/// Extending is transitive.
pub proof fn lemma_tree_extends_trans(a: SymbolTree, b: SymbolTree, c: SymbolTree)
    requires
        tree_extends(a, b),
        tree_extends(b, c),
    ensures
        tree_extends(a, c),
{
}

impl SymbolTree {
    /// The symbols, in the order they were added.
    pub closed spec fn spec_symbols(&self) -> Seq<Symbol> {
        self.symbols@
    }

    /// The scopes, in the order they were added.
    pub closed spec fn spec_scopes(&self) -> Seq<Scope> {
        self.scopes@
    }

    /// The stored lyric chunks, in the order they were stored.
    pub closed spec fn spec_lyrics(&self) -> Seq<Seq<char>> {
        self.cache.lyrics@.map_values(|s: String| s@)
    }

    /// The defined voices, in the order they were defined.
    pub closed spec fn spec_voice_defs(&self) -> Seq<Voice> {
        self.cache.voice_defs@
    }

    pub closed spec fn spec_comments(&self) -> Seq<Comment> {
        self.cache.comments@
    }

    pub closed spec fn spec_delimiters(&self) -> Seq<Delimiter> {
        self.cache.delimiters@
    }

    /// The symbols that refer to the key `key`, in the order they were stored.
    pub closed spec fn spec_key_refs(&self, key: Seq<char>) -> Seq<SymbolId> {
        match first_index(key_names(self.cache.key_refs@), key) {
            Some(i) => self.cache.key_refs@[i].1@,
            None => Seq::empty(),
        }
    }

    /// The symbols that refer to the voice `voice`, in the order they were stored.
    pub closed spec fn spec_voice_refs(&self, voice: VoiceId) -> Seq<SymbolId> {
        match first_index(voice_ids(self.cache.voice_refs@), voice) {
            Some(i) => self.cache.voice_refs@[i].1@,
            None => Seq::empty(),
        }
    }

    /// The voices that have a reference table, in the order they got one.
    pub closed spec fn spec_referenced_voices(&self) -> Seq<VoiceId> {
        voice_ids(self.cache.voice_refs@)
    }

    /// The well-formedness of the tree: every index it stores points into it,
    /// and every scope comes after its parent.
    pub closed spec fn wf(&self) -> bool {
        &&& forall|i: int|
            0 <= i < self.symbols@.len() ==> (#[trigger] self.symbols@[i]).scope
                < self.scopes@.len()
        &&& forall|i: int|
            0 <= i < self.scopes@.len() ==> {
                &&& (#[trigger] self.scopes@[i]).parent matches Some(p) ==> p < i
                &&& forall|k: int|
                    0 <= k < self.scopes@[i].children@.len() ==> i
                        < #[trigger] self.scopes@[i].children@[k] < self.scopes@.len()
                &&& forall|k: int|
                    0 <= k < self.scopes@[i].symbols@.len() ==> #[trigger] self.scopes@[i].symbols@[k]
                        < self.symbols@.len()
            }
        &&& forall|i: int, k: int|
            0 <= i < self.cache.key_refs@.len() && 0 <= k < self.cache.key_refs@[i].1@.len()
                ==> #[trigger] self.cache.key_refs@[i].1@[k] < self.symbols@.len()
        &&& forall|i: int, k: int|
            0 <= i < self.cache.voice_refs@.len() && 0 <= k
                < self.cache.voice_refs@[i].1@.len() ==> #[trigger] self.cache.voice_refs@[i].1@[k]
                < self.symbols@.len()
    }

    /// An empty tree.
    pub fn new() -> (r: SymbolTree)
        ensures
            r.wf(),
            r.spec_symbols().len() == 0,
            r.spec_scopes().len() == 0,
            r.spec_lyrics().len() == 0,
            r.spec_voice_defs().len() == 0,
            r.spec_comments().len() == 0,
            r.spec_delimiters().len() == 0,
            forall|k: Seq<char>| r.spec_key_refs(k).len() == 0,
            forall|v: VoiceId| r.spec_voice_refs(v).len() == 0,
            r.spec_referenced_voices().len() == 0,
    {
        SymbolTree {
            symbols: Vec::new(),
            scopes: Vec::new(),
            cache: SymbolCache {
                key_refs: Vec::new(),
                voice_defs: Vec::new(),
                voice_refs: Vec::new(),
                comments: Vec::new(),
                lyrics: Vec::new(),
                delimiters: Vec::new(),
            },
        }
    }

    /// Adds the root scope, spanning `range`.
    pub fn init_root(&mut self, range: Range)
        requires
            old(self).wf(),
        ensures
            final(self).wf(),
            final(self).spec_scopes().len() == old(self).spec_scopes().len() + 1,
            final(self).spec_scopes().last().kind == ScopeKind::Root,
            final(self).spec_scopes().last().range == range,
            final(self).spec_scopes().last().parent is None,
            final(self).spec_symbols() == old(self).spec_symbols(),
            same_tables(*final(self), *old(self)),
    {
        let _ = self.add_scope(ScopeKind::Root, range, None);
    }

    /// Adds a symbol to the scope `scope_id` and returns its id.
    pub fn add_symbol(&mut self, kind: SymbolKind, range: Range, scope_id: ScopeId) -> (id:
        SymbolId)
        requires
            old(self).wf(),
            scope_id < old(self).spec_scopes().len(),
        ensures
            final(self).wf(),
            id == old(self).spec_symbols().len(),
            final(self).spec_symbols() == old(self).spec_symbols().push(
                Symbol { range, kind, scope: scope_id },
            ),
            final(self).spec_scopes().len() == old(self).spec_scopes().len(),
            same_but_symbols(final(self).spec_scopes()[scope_id as int], old(self).spec_scopes()[scope_id as int]),
            final(self).spec_scopes()[scope_id as int].symbols@ == old(self).spec_scopes()[scope_id as int].symbols@.push(id),
            forall|j: int|
                0 <= j < old(self).spec_scopes().len() && j != scope_id ==> final(self).spec_scopes()[j]
                    == old(self).spec_scopes()[j],
            same_tables(*final(self), *old(self)),
    {
        let id = self.symbols.len();
        let symbol = Symbol { range, kind, scope: scope_id };
        self.symbols.push(symbol);
        self.scopes[scope_id].symbols.push(id);
        proof {
            let s = self.scopes@;
            assert forall|i: int| 0 <= i < s.len() implies {
                &&& (#[trigger] s[i]).parent matches Some(p) ==> p < i
                &&& forall|k: int| 0 <= k < s[i].children@.len() ==> i < #[trigger] s[i].children@[k] < s.len()
                &&& forall|k: int| 0 <= k < s[i].symbols@.len() ==> #[trigger] s[i].symbols@[k] < self.symbols@.len()
            } by {
                if i != scope_id {
                    assert(s[i] == old(self).scopes@[i]);
                }
            }
        }
        id
    }

    /// The symbol `id`.
    pub fn get_symbol(&self, id: SymbolId) -> (r: &Symbol)
        requires
            id < self.spec_symbols().len(),
        ensures
            *r == self.spec_symbols()[id as int],
    {
        &self.symbols[id]
    }

    pub fn get_symbol_range(&self, id: SymbolId) -> (r: Range)
        requires
            id < self.spec_symbols().len(),
        ensures
            r == self.spec_symbols()[id as int].range,
    {
        self.symbols[id].range
    }

    /// Adds a scope under `parent` and returns its id; its local id is the
    /// number of sub-scopes the parent had before.
    pub fn add_scope(&mut self, kind: ScopeKind, range: Range, parent: Option<ScopeId>) -> (id:
        ScopeId)
        requires
            old(self).wf(),
            parent matches Some(p) ==> p < old(self).spec_scopes().len(),
        ensures
            final(self).wf(),
            id == old(self).spec_scopes().len(),
            final(self).spec_scopes().len() == old(self).spec_scopes().len() + 1,
            final(self).spec_scopes()[id as int].kind == kind,
            final(self).spec_scopes()[id as int].range == range,
            final(self).spec_scopes()[id as int].parent == parent,
            final(self).spec_scopes()[id as int].children@.len() == 0,
            final(self).spec_scopes()[id as int].symbols@.len() == 0,
            final(self).spec_scopes()[id as int].local_id == (match parent {
                Some(p) => old(self).spec_scopes()[p as int].children@.len(),
                None => 0,
            }),
            parent matches Some(p) ==> {
                &&& same_but_children(final(self).spec_scopes()[p as int], old(self).spec_scopes()[p as int])
                &&& final(self).spec_scopes()[p as int].children@ == old(self).spec_scopes()[p as int].children@.push(id)
            },
            forall|j: int|
                0 <= j < old(self).spec_scopes().len() && Some(j as usize) != parent
                    ==> final(self).spec_scopes()[j] == old(self).spec_scopes()[j],
            final(self).spec_symbols() == old(self).spec_symbols(),
            same_tables(*final(self), *old(self)),
    {
        let id = self.scopes.len();
        let local_id = match parent {
            Some(p) => self.scopes[p].children.len(),
            None => 0,
        };
        let scope = Scope {
            local_id,
            range,
            kind,
            parent,
            children: Vec::new(),
            symbols: Vec::new(),
        };
        self.scopes.push(scope);
        if let Some(p) = parent {
            self.scopes[p].children.push(id);
        }
        proof {
            let s = self.scopes@;
            assert forall|i: int| 0 <= i < s.len() implies {
                &&& (#[trigger] s[i]).parent matches Some(p) ==> p < i
                &&& forall|k: int| 0 <= k < s[i].children@.len() ==> i < #[trigger] s[i].children@[k] < s.len()
                &&& forall|k: int| 0 <= k < s[i].symbols@.len() ==> #[trigger] s[i].symbols@[k] < self.symbols@.len()
            } by {
                if i < id && Some(i as usize) != parent {
                    assert(s[i] == old(self).scopes@[i]);
                }
            }
        }
        id
    }

    pub fn get_scope(&self, id: ScopeId) -> (r: &Scope)
        requires
            id < self.spec_scopes().len(),
        ensures
            *r == self.spec_scopes()[id as int],
    {
        &self.scopes[id]
    }

    pub fn get_scope_range(&self, id: ScopeId) -> (r: Range)
        requires
            id < self.spec_scopes().len(),
        ensures
            r == self.spec_scopes()[id as int].range,
    {
        self.scopes[id].range
    }

    /// The scope that holds the symbol `symbol_id`.
    pub fn resolve_scope(&self, symbol_id: SymbolId) -> (r: &Scope)
        requires
            self.wf(),
            symbol_id < self.spec_symbols().len(),
        ensures
            *r == self.spec_scopes()[self.spec_symbols()[symbol_id as int].scope as int],
    {
        let scope_id = self.symbols[symbol_id].scope;
        &self.scopes[scope_id]
    }

    pub fn store_comment(&mut self, comment: SymbolRef<String>)
        requires
            old(self).wf(),
        ensures
            final(self).wf(),
            final(self).spec_comments() == old(self).spec_comments().push(comment),
            final(self).spec_symbols() == old(self).spec_symbols(),
            final(self).spec_scopes() == old(self).spec_scopes(),
            final(self).spec_lyrics() == old(self).spec_lyrics(),
            forall|k: Seq<char>| #[trigger] final(self).spec_key_refs(k) == old(self).spec_key_refs(k),
    {
        self.cache.comments.push(comment);
        proof {
            assert(self.spec_lyrics() =~= old(self).spec_lyrics());
        }
    }

    pub fn get_comments(&self) -> (r: &[SymbolRef<String>])
        ensures
            r@ == self.spec_comments(),
    {
        self.cache.comments.as_slice()
    }

    /// Stores a chunk of lyric text and returns its id.
    pub fn store_lyric_chunk(&mut self, chunk: String) -> (id: LyricStringId)
        requires
            old(self).wf(),
        ensures
            final(self).wf(),
            id == old(self).spec_lyrics().len(),
            final(self).spec_lyrics() == old(self).spec_lyrics().push(chunk@),
            final(self).spec_symbols() == old(self).spec_symbols(),
            final(self).spec_scopes() == old(self).spec_scopes(),
            final(self).spec_comments() == old(self).spec_comments(),
            forall|k: Seq<char>| #[trigger] final(self).spec_key_refs(k) == old(self).spec_key_refs(k),
    {
        self.cache.lyrics.push(chunk);
        proof {
            assert(self.spec_lyrics() =~= old(self).spec_lyrics().push(chunk@));
        }
        self.cache.lyrics.len() - 1
    }

    /// The lyric chunk `id`.
    pub fn get_lyric_chunk(&self, id: LyricStringId) -> (r: &str)
        requires
            id < self.spec_lyrics().len(),
        ensures
            r@ == self.spec_lyrics()[id as int],
    {
        self.cache.lyrics[id].as_str()
    }

    fn find_key(&self, key: &str) -> (r: Option<usize>)
        ensures
            r is None <==> first_index(key_names(self.cache.key_refs@), key@) is None,
            r matches Some(i) ==> first_index(key_names(self.cache.key_refs@), key@) == Some(i as int),
    {
        let n = self.cache.key_refs.len();
        let ghost names = key_names(self.cache.key_refs@);
        let mut i: usize = 0;
        while i < n
            invariant
                n == self.cache.key_refs@.len(),
                names == key_names(self.cache.key_refs@),
                i <= n,
                forall|j: int| 0 <= j < i ==> names[j] != key@,
            decreases n - i,
        {
            if str_eq(self.cache.key_refs[i].0.as_str(), key) {
                proof {
                    lemma_first_index_char(names, key@, i as int);
                }
                return Some(i);
            }
            i = i + 1;
        }
        proof {
            lemma_first_index_absent(names, key@);
        }
        None
    }

    fn find_voice(&self, voice: VoiceId) -> (r: Option<usize>)
        ensures
            r is None <==> first_index(voice_ids(self.cache.voice_refs@), voice) is None,
            r matches Some(i) ==> first_index(voice_ids(self.cache.voice_refs@), voice) == Some(i as int),
    {
        let n = self.cache.voice_refs.len();
        let ghost ids = voice_ids(self.cache.voice_refs@);
        let mut i: usize = 0;
        while i < n
            invariant
                n == self.cache.voice_refs@.len(),
                ids == voice_ids(self.cache.voice_refs@),
                i <= n,
                forall|j: int| 0 <= j < i ==> ids[j] != voice,
            decreases n - i,
        {
            if self.cache.voice_refs[i].0 == voice {
                proof {
                    lemma_first_index_char(ids, voice, i as int);
                }
                return Some(i);
            }
            i = i + 1;
        }
        proof {
            lemma_first_index_absent(ids, voice);
        }
        None
    }

    /// Records that the symbol `sid` refers to the key `key`.
    pub fn store_key_ref(&mut self, key: String, sid: SymbolId)
        ensures
            old(self).wf() && sid < old(self).spec_symbols().len() ==> final(self).wf(),
            forall|k: Seq<char>|
                #[trigger] final(self).spec_key_refs(k) == if k == key@ {
                    old(self).spec_key_refs(k).push(sid)
                } else {
                    old(self).spec_key_refs(k)
                },
            forall|v: VoiceId| #[trigger] final(self).spec_voice_refs(v) == old(self).spec_voice_refs(v),
            final(self).spec_symbols() == old(self).spec_symbols(),
            final(self).spec_scopes() == old(self).spec_scopes(),
            final(self).spec_lyrics() == old(self).spec_lyrics(),
            final(self).spec_voice_defs() == old(self).spec_voice_defs(),
            final(self).spec_comments() == old(self).spec_comments(),
            final(self).spec_delimiters() == old(self).spec_delimiters(),
    {
        let ghost old_names = key_names(self.cache.key_refs@);
        match self.find_key(key.as_str()) {
            Some(i) => {
                proof {
                    lemma_first_index_bounds(old_names, key@);
                }
                self.cache.key_refs[i].1.push(sid);
                proof {
                    assert(key_names(self.cache.key_refs@) =~= old_names);
                    assert(first_index(old_names, key@) == Some(i as int));
                    assert(self.cache.key_refs@[i as int].1@ == old(self).cache.key_refs@[i as int].1@.push(sid));
                    assert(self.spec_key_refs(key@) == self.cache.key_refs@[i as int].1@);
                    assert(old(self).spec_key_refs(key@) == old(self).cache.key_refs@[i as int].1@);
                    assert forall|k: Seq<char>|
                        #[trigger] self.spec_key_refs(k) == if k == key@ {
                            old(self).spec_key_refs(k).push(sid)
                        } else {
                            old(self).spec_key_refs(k)
                        } by {
                        lemma_first_index_bounds(old_names, k);
                        match first_index(old_names, k) {
                            Some(j) => {
                                if j != i {
                                    assert(self.cache.key_refs@[j] == old(self).cache.key_refs@[j]);
                                }
                            },
                            None => {},
                        }
                    }
                }
            },
            None => {
                let mut refs = Vec::new();
                refs.push(sid);
                let ghost key_view = key@;
                self.cache.key_refs.push((key, refs));
                proof {
                    assert(key_names(self.cache.key_refs@) =~= old_names.push(key_view));
                    assert forall|k: Seq<char>|
                        #[trigger] self.spec_key_refs(k) == if k == key_view {
                            old(self).spec_key_refs(k).push(sid)
                        } else {
                            old(self).spec_key_refs(k)
                        } by {
                        lemma_first_index_push(old_names, k, key_view);
                        lemma_first_index_bounds(old_names, k);
                    }
                }
            },
        }
        proof {
            assert(self.spec_lyrics() =~= old(self).spec_lyrics());
        }
    }

    /// Records that the symbol `sid` refers to the voice `voice`.
    pub fn store_voice_ref(&mut self, voice: VoiceId, sid: SymbolId)
        ensures
            old(self).wf() && sid < old(self).spec_symbols().len() ==> final(self).wf(),
            forall|v: VoiceId|
                #[trigger] final(self).spec_voice_refs(v) == if v == voice {
                    old(self).spec_voice_refs(v).push(sid)
                } else {
                    old(self).spec_voice_refs(v)
                },
            forall|k: Seq<char>| #[trigger] final(self).spec_key_refs(k) == old(self).spec_key_refs(k),
            final(self).spec_symbols() == old(self).spec_symbols(),
            final(self).spec_scopes() == old(self).spec_scopes(),
            final(self).spec_lyrics() == old(self).spec_lyrics(),
            final(self).spec_voice_defs() == old(self).spec_voice_defs(),
            final(self).spec_comments() == old(self).spec_comments(),
            final(self).spec_delimiters() == old(self).spec_delimiters(),
    {
        let ghost old_ids = voice_ids(self.cache.voice_refs@);
        match self.find_voice(voice) {
            Some(i) => {
                proof {
                    lemma_first_index_bounds(old_ids, voice);
                }
                self.cache.voice_refs[i].1.push(sid);
                proof {
                    assert(voice_ids(self.cache.voice_refs@) =~= old_ids);
                    assert forall|v: VoiceId|
                        #[trigger] self.spec_voice_refs(v) == if v == voice {
                            old(self).spec_voice_refs(v).push(sid)
                        } else {
                            old(self).spec_voice_refs(v)
                        } by {
                        lemma_first_index_bounds(old_ids, v);
                        match first_index(old_ids, v) {
                            Some(j) => {
                                if j != i {
                                    assert(self.cache.voice_refs@[j] == old(self).cache.voice_refs@[j]);
                                }
                            },
                            None => {},
                        }
                    }
                }
            },
            None => {
                let mut refs = Vec::new();
                refs.push(sid);
                self.cache.voice_refs.push((voice, refs));
                proof {
                    assert(voice_ids(self.cache.voice_refs@) =~= old_ids.push(voice));
                    assert forall|v: VoiceId|
                        #[trigger] self.spec_voice_refs(v) == if v == voice {
                            old(self).spec_voice_refs(v).push(sid)
                        } else {
                            old(self).spec_voice_refs(v)
                        } by {
                        lemma_first_index_push(old_ids, v, voice);
                        lemma_first_index_bounds(old_ids, v);
                    }
                }
            },
        }
        proof {
            assert(self.spec_lyrics() =~= old(self).spec_lyrics());
        }
    }

    /// Defines the voices of the document: the voice at index `i` of `voices`
    /// gets the id `i`, and its symbol becomes a reference to it.
    pub fn define_voices(&mut self, voices: &[SymbolRef<Voice>])
        ensures
            old(self).wf() && (forall|i: int| 0 <= i < voices@.len() ==> #[trigger] voices@[i].sid
                < old(self).spec_symbols().len()) ==> final(self).wf(),
            final(self).spec_voice_defs() == old(self).spec_voice_defs() + voices@.map_values(
                |v: SymbolRef<Voice>| v.value,
            ),
            forall|v: VoiceId|
                #[trigger] final(self).spec_voice_refs(v) == if v < voices@.len() {
                    old(self).spec_voice_refs(v).push(voices@[v as int].sid)
                } else {
                    old(self).spec_voice_refs(v)
                },
            forall|k: Seq<char>| #[trigger] final(self).spec_key_refs(k) == old(self).spec_key_refs(k),
            final(self).spec_symbols() == old(self).spec_symbols(),
            final(self).spec_scopes() == old(self).spec_scopes(),
            final(self).spec_lyrics() == old(self).spec_lyrics(),
    {
        let n = voices.len();
        let mut id: usize = 0;
        while id < n
            invariant
                old(self).wf() && (forall|i: int| 0 <= i < voices@.len() ==> #[trigger] voices@[i].sid
                    < old(self).spec_symbols().len()) ==> self.wf(),
                n == voices@.len(),
                id <= n,
                self.spec_voice_defs() == old(self).spec_voice_defs() + voices@.subrange(0, id as int).map_values(
                    |v: SymbolRef<Voice>| v.value,
                ),
                forall|v: VoiceId|
                    #[trigger] self.spec_voice_refs(v) == if v < id {
                        old(self).spec_voice_refs(v).push(voices@[v as int].sid)
                    } else {
                        old(self).spec_voice_refs(v)
                    },
                forall|k: Seq<char>| #[trigger] self.spec_key_refs(k) == old(self).spec_key_refs(k),
                self.spec_symbols() == old(self).spec_symbols(),
                self.spec_scopes() == old(self).spec_scopes(),
                self.spec_lyrics() == old(self).spec_lyrics(),
            decreases n - id,
        {
            let voice = &voices[id];
            self.store_voice_ref(id, voice.sid);
            let ghost mid = *self;
            self.cache.voice_defs.push(voice.value);
            proof {
                assert(self.cache.voice_refs@ == mid.cache.voice_refs@);
                assert(self.cache.key_refs@ == mid.cache.key_refs@);
                assert forall|v: VoiceId| #[trigger] self.spec_voice_refs(v) == mid.spec_voice_refs(v) by {}
                assert forall|k: Seq<char>| #[trigger] self.spec_key_refs(k) == mid.spec_key_refs(k) by {}
                assert(voices@.subrange(0, id + 1).map_values(|v: SymbolRef<Voice>| v.value)
                    =~= voices@.subrange(0, id as int).map_values(|v: SymbolRef<Voice>| v.value).push(voices@[id as int].value));
                assert(self.spec_lyrics() =~= old(self).spec_lyrics());
            }
            id = id + 1;
        }
        proof {
            assert(voices@.subrange(0, n as int) =~= voices@);
        }
    }

    /// The voice with id `voice_id`, if it was defined.
    pub fn get_voice(&self, voice_id: usize) -> (r: Option<Voice>)
        ensures
            r == (if voice_id < self.spec_voice_defs().len() {
                Some(self.spec_voice_defs()[voice_id as int])
            } else {
                None
            }),
    {
        if voice_id < self.cache.voice_defs.len() {
            Some(self.cache.voice_defs[voice_id])
        } else {
            None
        }
    }

    /// The span of the first reference to the key `key`.
    pub fn get_key_definition(&self, key: &str) -> (r: Option<Range>)
        requires
            self.spec_key_refs(key@).len() > 0 ==> self.spec_key_refs(key@)[0] < self.spec_symbols().len(),
        ensures
            r == (if self.spec_key_refs(key@).len() > 0 {
                Some(self.spec_symbols()[self.spec_key_refs(key@)[0] as int].range)
            } else {
                None
            }),
    {
        match self.find_key(key) {
            Some(i) => {
                proof {
                    lemma_first_index_bounds(key_names(self.cache.key_refs@), key@);
                }
                if self.cache.key_refs[i].1.len() > 0 {
                    let sid = self.cache.key_refs[i].1[0];
                    assert(self.spec_key_refs(key@) == self.cache.key_refs@[i as int].1@);
                    Some(self.symbols[sid].range)
                } else {
                    None
                }
            },
            None => None,
        }
    }

    pub fn store_delimiter(&mut self, range: Range, kind: DelimiterKind)
        requires
            old(self).wf(),
        ensures
            final(self).wf(),
            final(self).spec_delimiters() == old(self).spec_delimiters().push(Delimiter { kind, range }),
            final(self).spec_symbols() == old(self).spec_symbols(),
            final(self).spec_scopes() == old(self).spec_scopes(),
            final(self).spec_lyrics() == old(self).spec_lyrics(),
            forall|k: Seq<char>| #[trigger] final(self).spec_key_refs(k) == old(self).spec_key_refs(k),
    {
        self.cache.delimiters.push(Delimiter { kind, range });
        proof {
            assert(self.spec_lyrics() =~= old(self).spec_lyrics());
        }
    }

    pub fn get_delimiters(&self) -> (r: &[Delimiter])
        ensures
            r@ == self.spec_delimiters(),
    {
        self.cache.delimiters.as_slice()
    }
}

/// The index, from `j` on, of the first of `children` whose span contains `pos`.
pub open spec fn first_scope_containing(scopes: Seq<Scope>, children: Seq<ScopeId>, pos: Position, j: int) -> Option<int>
    decreases children.len() - j,
{
    if j < 0 || j >= children.len() {
        None
    } else if children[j] < scopes.len() && scopes[children[j] as int].range.spec_contains(pos) {
        Some(j)
    } else {
        first_scope_containing(scopes, children, pos, j + 1)
    }
}

/// The innermost scope containing `pos`, going down from scope `id` through
/// the first child that contains it at each level.
pub open spec fn query_scope_from(scopes: Seq<Scope>, id: int, pos: Position) -> int
    decreases scopes.len() - id,
{
    if id < 0 || id >= scopes.len() {
        id
    } else {
        match first_scope_containing(scopes, scopes[id].children@, pos, 0) {
            Some(k) => {
                let c = scopes[id].children@[k] as int;
                if id < c < scopes.len() {
                    query_scope_from(scopes, c, pos)
                } else {
                    id
                }
            },
            None => id,
        }
    }
}

/// The index, from `j` on, of the first of `ids` whose symbol's span contains `pos`.
pub open spec fn first_symbol_containing(symbols: Seq<Symbol>, ids: Seq<SymbolId>, pos: Position, j: int) -> Option<int>
    decreases ids.len() - j,
{
    if j < 0 || j >= ids.len() {
        None
    } else if ids[j] < symbols.len() && symbols[ids[j] as int].range.spec_contains(pos) {
        Some(j)
    } else {
        first_symbol_containing(symbols, ids, pos, j + 1)
    }
}

/// The number of solfa lines among the scopes `children`.
pub open spec fn count_solfa_lines(scopes: Seq<Scope>, children: Seq<ScopeId>) -> int
    decreases children.len(),
{
    if children.len() == 0 {
        0
    } else {
        count_solfa_lines(scopes, children.drop_last()) + if children.last() < scopes.len()
            && scopes[children.last() as int].kind == ScopeKind::SolfaLine {
            1int
        } else {
            0int
        }
    }
}

/// The number of solfa lines in the sub-scopes `subs` of a section.
pub open spec fn count_section_lines(scopes: Seq<Scope>, subs: Seq<ScopeId>) -> int
    decreases subs.len(),
{
    if subs.len() == 0 {
        0
    } else {
        count_section_lines(scopes, subs.drop_last()) + if subs.last() < scopes.len() {
            count_solfa_lines(scopes, scopes[subs.last() as int].children@)
        } else {
            0
        }
    }
}

proof fn lemma_section_lines_prefix(scopes: Seq<Scope>, subs: Seq<ScopeId>, i: int)
    requires
        0 <= i <= subs.len(),
    ensures
        0 <= count_section_lines(scopes, subs.subrange(0, i)) <= count_section_lines(scopes, subs),
    decreases subs.len() - i,
{
    if i < subs.len() {
        lemma_section_lines_prefix(scopes, subs, i + 1);
        let p = subs.subrange(0, i + 1);
        assert(p.drop_last() =~= subs.subrange(0, i));
        lemma_section_lines_nonneg(scopes, subs.subrange(0, i));
        if p.last() < scopes.len() {
            lemma_count_solfa_lines_bound(scopes, scopes[p.last() as int].children@);
        }
    } else {
        assert(subs.subrange(0, i) =~= subs);
        lemma_section_lines_nonneg(scopes, subs);
    }
}

proof fn lemma_section_lines_nonneg(scopes: Seq<Scope>, subs: Seq<ScopeId>)
    ensures
        count_section_lines(scopes, subs) >= 0,
    decreases subs.len(),
{
    if subs.len() > 0 {
        lemma_section_lines_nonneg(scopes, subs.drop_last());
        if subs.last() < scopes.len() {
            lemma_count_solfa_lines_bound(scopes, scopes[subs.last() as int].children@);
        }
    }
}

proof fn lemma_count_solfa_lines_bound(scopes: Seq<Scope>, children: Seq<ScopeId>)
    ensures
        0 <= count_solfa_lines(scopes, children) <= children.len(),
    decreases children.len(),
{
    if children.len() > 0 {
        lemma_count_solfa_lines_bound(scopes, children.drop_last());
    }
}

impl SymbolTree {
    /// The number of scopes.
    pub fn scope_count(&self) -> (r: usize)
        ensures
            r == self.spec_scopes().len(),
    {
        self.scopes.len()
    }

    /// The number of symbols.
    pub fn symbol_count(&self) -> (r: usize)
        ensures
            r == self.spec_symbols().len(),
    {
        self.symbols.len()
    }

    /// The voice reference tables, in the order the voices got one.
    pub closed spec fn spec_voice_ref_entries(&self) -> Seq<(VoiceId, Vec<SymbolId>)> {
        self.cache.voice_refs@
    }

    /// The innermost scope whose span contains `position`, found by going
    /// down from the root through the first child that contains it.
    pub fn query_scope(&self, position: &Position) -> (r: ScopeId)
        requires
            self.wf(),
            self.spec_scopes().len() > 0,
        ensures
            r == query_scope_from(self.spec_scopes(), ROOT_SCOPE_ID as int, *position),
            r < self.spec_scopes().len(),
    {
        let ghost scopes = self.scopes@;
        let mut current: usize = ROOT_SCOPE_ID;
        loop
            invariant
                self.wf(),
                scopes == self.scopes@,
                current < scopes.len(),
                query_scope_from(scopes, ROOT_SCOPE_ID as int, *position) == query_scope_from(
                    scopes,
                    current as int,
                    *position,
                ),
            decreases scopes.len() - current,
        {
            let children = &self.scopes[current].children;
            let n = children.len();
            let mut k: usize = 0;
            let mut found: Option<usize> = None;
            while k < n && found.is_none()
                invariant
                    self.wf(),
                    scopes == self.scopes@,
                    current < scopes.len(),
                    *children == scopes[current as int].children,
                    n == children@.len(),
                    k <= n,
                    found is None ==> first_scope_containing(scopes, children@, *position, 0)
                        == first_scope_containing(scopes, children@, *position, k as int),
                    found matches Some(c) ==> k >= 1 && first_scope_containing(
                        scopes,
                        children@,
                        *position,
                        0,
                    ) == Some(k - 1) && c == children@[k - 1],
                decreases n - k,
            {
                let child = children[k];
                assert(current < child < scopes.len());
                if self.scopes[child].range.contains(position) {
                    found = Some(child);
                }
                k = k + 1;
            }
            match found {
                Some(child) => {
                    assert(current < child < scopes.len());
                    current = child;
                },
                None => {
                    return current;
                },
            }
        }
    }

    /// The first symbol of the innermost scope at `position` whose span
    /// contains `position`.
    pub fn query_symbol(&self, position: &Position) -> (r: Option<&Symbol>)
        requires
            self.wf(),
            self.spec_scopes().len() > 0,
        ensures
            ({
                let scope = self.spec_scopes()[query_scope_from(self.spec_scopes(), ROOT_SCOPE_ID as int, *position)];
                match first_symbol_containing(self.spec_symbols(), scope.symbols@, *position, 0) {
                    Some(j) => r matches Some(sym) && *sym == self.spec_symbols()[scope.symbols@[j] as int],
                    None => r is None,
                }
            }),
    {
        let scope_id = self.query_scope(position);
        let ids = &self.scopes[scope_id].symbols;
        let n = ids.len();
        let mut k: usize = 0;
        while k < n
            invariant
                self.wf(),
                scope_id < self.scopes@.len(),
                scope_id == query_scope_from(self.scopes@, ROOT_SCOPE_ID as int, *position),
                *ids == self.scopes@[scope_id as int].symbols,
                n == ids@.len(),
                k <= n,
                first_symbol_containing(self.symbols@, ids@, *position, 0) == first_symbol_containing(
                    self.symbols@,
                    ids@,
                    *position,
                    k as int,
                ),
            decreases n - k,
        {
            let sid = ids[k];
            assert(sid < self.symbols@.len());
            if self.symbols[sid].range.contains(position) {
                assert(first_symbol_containing(self.symbols@, ids@, *position, k as int) == Some(k as int));
                return Some(&self.symbols[sid]);
            }
            k = k + 1;
        }
        None
    }

    /// The references of the voice that has a reference whose span contains
    /// `position`: the first such voice in the order the voices got a table.
    pub fn find_voice_refs(&self, position: &Position) -> (r: Option<&Vec<SymbolId>>)
        requires
            self.wf(),
        ensures
            match r {
                Some(refs) => exists|i: int|
                    0 <= i < self.spec_voice_ref_entries().len() && first_symbol_containing(
                        self.spec_symbols(),
                        #[trigger] self.spec_voice_ref_entries()[i].1@,
                        *position,
                        0,
                    ) is Some && (forall|j: int|
                        0 <= j < i ==> first_symbol_containing(
                            self.spec_symbols(),
                            #[trigger] self.spec_voice_ref_entries()[j].1@,
                            *position,
                            0,
                        ) is None) && refs@ == self.spec_voice_refs(self.spec_voice_ref_entries()[i].0),
                None => forall|i: int|
                    0 <= i < self.spec_voice_ref_entries().len() ==> first_symbol_containing(
                        self.spec_symbols(),
                        #[trigger] self.spec_voice_ref_entries()[i].1@,
                        *position,
                        0,
                    ) is None,
            },
    {
        let n = self.cache.voice_refs.len();
        let mut i: usize = 0;
        while i < n
            invariant
                self.wf(),
                n == self.cache.voice_refs@.len(),
                i <= n,
                forall|j: int|
                    0 <= j < i ==> first_symbol_containing(
                        self.symbols@,
                        #[trigger] self.cache.voice_refs@[j].1@,
                        *position,
                        0,
                    ) is None,
            decreases n - i,
        {
            let refs = &self.cache.voice_refs[i].1;
            let m = refs.len();
            let mut k: usize = 0;
            let mut hit = false;
            while k < m && !hit
                invariant
                    self.wf(),
                    i < n,
                    n == self.cache.voice_refs@.len(),
                    *refs == self.cache.voice_refs@[i as int].1,
                    m == refs@.len(),
                    k <= m,
                    !hit ==> first_symbol_containing(self.symbols@, refs@, *position, 0)
                        == first_symbol_containing(self.symbols@, refs@, *position, k as int),
                    hit ==> first_symbol_containing(self.symbols@, refs@, *position, 0) is Some,
                decreases m - k,
            {
                let sid = refs[k];
                assert(sid < self.symbols@.len());
                if self.symbols[sid].range.contains(position) {
                    hit = true;
                }
                k = k + 1;
            }
            if hit {
                let voice = self.cache.voice_refs[i].0;
                match self.find_voice(voice) {
                    Some(j) => {
                        proof {
                            lemma_first_index_bounds(voice_ids(self.cache.voice_refs@), voice);
                        }
                        return Some(&self.cache.voice_refs[j].1);
                    },
                    None => {
                        proof {
                            lemma_first_index_bounds(voice_ids(self.cache.voice_refs@), voice);
                            assert(voice_ids(self.cache.voice_refs@)[i as int] == voice);
                        }
                        return None;
                    },
                }
            }
            i = i + 1;
        }
        None
    }

    /// The voice index of a solfa line: the number of solfa lines of its
    /// section, less one.
    pub fn create_voice_id(&self, line_sid: ScopeId) -> (r: usize)
        requires
            self.wf(),
            line_sid < self.spec_scopes().len(),
            self.spec_scopes()[line_sid as int].parent is Some,
            self.spec_scopes()[self.spec_scopes()[line_sid as int].parent->0 as int].parent is Some,
            count_section_lines(
                self.spec_scopes(),
                self.spec_scopes()[self.spec_scopes()[self.spec_scopes()[line_sid as int].parent->0 as int].parent->0 as int].children@,
            ) >= 1,
            count_section_lines(
                self.spec_scopes(),
                self.spec_scopes()[self.spec_scopes()[self.spec_scopes()[line_sid as int].parent->0 as int].parent->0 as int].children@,
            ) <= usize::MAX,
        ensures
            r == count_section_lines(
                self.spec_scopes(),
                self.spec_scopes()[self.spec_scopes()[self.spec_scopes()[line_sid as int].parent->0 as int].parent->0 as int].children@,
            ) - 1,
    {
        let sub_section_sid = match self.scopes[line_sid].parent {
            Some(p) => p,
            None => 0,
        };
        let section_sid = match self.scopes[sub_section_sid].parent {
            Some(p) => p,
            None => 0,
        };
        let subs = &self.scopes[section_sid].children;
        let n = subs.len();
        let mut count: usize = 0;
        let mut i: usize = 0;
        while i < n
            invariant
                self.wf(),
                section_sid < self.scopes@.len(),
                *subs == self.scopes@[section_sid as int].children,
                n == subs@.len(),
                i <= n,
                count == count_section_lines(self.scopes@, subs@.subrange(0, i as int)),
                count_section_lines(self.scopes@, subs@) <= usize::MAX,
            decreases n - i,
        {
            let sub = subs[i];
            let children = &self.scopes[sub].children;
            let m = children.len();
            let mut k: usize = 0;
            let mut local: usize = 0;
            while k < m
                invariant
                    self.wf(),
                    sub < self.scopes@.len(),
                    *children == self.scopes@[sub as int].children,
                    m == children@.len(),
                    k <= m,
                    local == count_solfa_lines(self.scopes@, children@.subrange(0, k as int)),
                    local <= k,
                decreases m - k,
            {
                let ghost prefix = children@.subrange(0, k as int + 1);
                assert(prefix.drop_last() =~= children@.subrange(0, k as int));
                let child = children[k];
                if self.scopes[child].kind.is_solfa_line() {
                    local = local + 1;
                }
                k = k + 1;
            }
            assert(children@.subrange(0, m as int) =~= children@);
            let ghost prefix = subs@.subrange(0, i as int + 1);
            assert(prefix.drop_last() =~= subs@.subrange(0, i as int));
            proof {
                lemma_section_lines_prefix(self.scopes@, subs@, i as int + 1);
                assert(prefix.last() == sub);
            }
            count = count + local;
            i = i + 1;
        }
        assert(subs@.subrange(0, n as int) =~= subs@);
        count - 1
    }
}

/// The spans of the symbols `ids`.
pub open spec fn symbol_ranges(symbols: Seq<Symbol>, ids: Seq<SymbolId>) -> Seq<Range> {
    ids.map_values(|sid: SymbolId| symbols[sid as int].range)
}

impl SymbolTree {
    /// Whether the key `key` has a reference table.
    pub closed spec fn spec_key_present(&self, key: Seq<char>) -> bool {
        first_index(key_names(self.cache.key_refs@), key) is Some
    }

    /// Whether the voice `voice` has a reference table.
    pub closed spec fn spec_voice_present(&self, voice: VoiceId) -> bool {
        first_index(voice_ids(self.cache.voice_refs@), voice) is Some
    }

    fn ranges_of(&self, ids: &Vec<SymbolId>) -> (r: Vec<Range>)
        requires
            forall|k: int| 0 <= k < ids@.len() ==> #[trigger] ids@[k] < self.spec_symbols().len(),
        ensures
            r@ == symbol_ranges(self.spec_symbols(), ids@),
    {
        let n = ids.len();
        let mut result: Vec<Range> = Vec::new();
        let mut k: usize = 0;
        while k < n
            invariant
                n == ids@.len(),
                k <= n,
                forall|j: int| 0 <= j < ids@.len() ==> #[trigger] ids@[j] < self.symbols@.len(),
                result@ == symbol_ranges(self.symbols@, ids@.subrange(0, k as int)),
            decreases n - k,
        {
            result.push(self.symbols[ids[k]].range);
            k = k + 1;
            assert(result@ =~= symbol_ranges(self.symbols@, ids@.subrange(0, k as int)));
        }
        assert(ids@.subrange(0, n as int) =~= ids@);
        result
    }

    /// The spans of all the references of what the symbol at `position`
    /// stands for: a key, a voice, or a voice value.
    pub fn get_symbol_refs(&self, position: &Position) -> (r: Option<Vec<Range>>)
        requires
            self.wf(),
            self.spec_scopes().len() > 0,
        ensures
            ({
                let scope = self.spec_scopes()[query_scope_from(self.spec_scopes(), ROOT_SCOPE_ID as int, *position)];
                match first_symbol_containing(self.spec_symbols(), scope.symbols@, *position, 0) {
                    None => r is None,
                    Some(j) => match self.spec_symbols()[scope.symbols@[j] as int].kind {
                        SymbolKind::Key(key) => if self.spec_key_present(key@) {
                            r matches Some(ranges) && ranges@ == symbol_ranges(self.spec_symbols(), self.spec_key_refs(key@))
                        } else {
                            r is None
                        },
                        SymbolKind::Voice(voice) => if self.spec_voice_present(voice) {
                            r matches Some(ranges) && ranges@ == symbol_ranges(self.spec_symbols(), self.spec_voice_refs(voice))
                        } else {
                            r is None
                        },
                        SymbolKind::Value(Value::Primitive(Primitive::Voice)) => r matches Some(ranges)
                            ==> exists|voice: VoiceId| ranges@ == #[trigger] symbol_ranges(
                            self.spec_symbols(),
                            self.spec_voice_refs(voice),
                        ),
                        _ => r is None,
                    },
                }
            }),
    {
        let symbol = match self.query_symbol(position) {
            Some(symbol) => symbol,
            None => return None,
        };
        match &symbol.kind {
            SymbolKind::Key(key) => {
                match self.find_key(key.as_str()) {
                    Some(i) => {
                        proof {
                            lemma_first_index_bounds(key_names(self.cache.key_refs@), key@);
                            assert(self.spec_key_refs(key@) == self.cache.key_refs@[i as int].1@);
                        }
                        Some(self.ranges_of(&self.cache.key_refs[i].1))
                    },
                    None => None,
                }
            },
            SymbolKind::Voice(voice) => {
                match self.find_voice(*voice) {
                    Some(i) => {
                        proof {
                            lemma_first_index_bounds(voice_ids(self.cache.voice_refs@), *voice);
                            assert(self.spec_voice_refs(*voice) == self.cache.voice_refs@[i as int].1@);
                        }
                        Some(self.ranges_of(&self.cache.voice_refs[i].1))
                    },
                    None => None,
                }
            },
            SymbolKind::Value(Value::Primitive(Primitive::Voice)) => {
                match self.find_voice_refs(position) {
                    Some(refs) => {
                        let ghost i = choose|i: int|
                            0 <= i < self.spec_voice_ref_entries().len() && first_symbol_containing(
                                self.spec_symbols(),
                                #[trigger] self.spec_voice_ref_entries()[i].1@,
                                *position,
                                0,
                            ) is Some && (forall|j: int|
                                0 <= j < i ==> first_symbol_containing(
                                    self.spec_symbols(),
                                    #[trigger] self.spec_voice_ref_entries()[j].1@,
                                    *position,
                                    0,
                                ) is None) && refs@ == self.spec_voice_refs(self.spec_voice_ref_entries()[i].0);
                        let ghost voice = self.spec_voice_ref_entries()[i].0;
                        proof {
                            lemma_first_index_bounds(voice_ids(self.cache.voice_refs@), voice);
                        }
                        let ranges = self.ranges_of(refs);
                        assert(ranges@ == symbol_ranges(self.spec_symbols(), self.spec_voice_refs(voice)));
                        Some(ranges)
                    },
                    None => None,
                }
            },
            _ => None,
        }
    }
}

} // verus!
