use vstd::prelude::*;

use crate::ast::lexing::{digits_end_spec, find_spec, skip_blanks_spec, word_end_spec};
use crate::data_types::Decimal;
use crate::text::spec_parse_usize;

verus! {

/// The kinds of single values written in a document.
#[derive(Debug, Clone, Copy, PartialEq, Eq, Structural)]
pub enum ScalarKind {
    Str,
    Integer,
    Float,
    Word,
}

/// A single value: its kind, where it stands, and where its text stands
/// (for a string, the text between the quotes).
#[derive(Debug, Clone, Copy, PartialEq, Eq, Structural)]
pub struct Scalar {
    pub kind: ScalarKind,
    pub start: usize,
    pub end: usize,
    pub text_start: usize,
    pub text_end: usize,
}

/// An item of a value: a single value, optionally placed at a timestamp or
/// over a range of timestamps (`value:start` or `value:start..end`).
#[derive(Debug, Clone, Copy, PartialEq, Eq, Structural)]
pub struct Item {
    pub value: Scalar,
    pub from: Option<Scalar>,
    pub to: Option<Scalar>,
    pub start: usize,
    pub end: usize,
}

/// The value of an assignment: a braced list of items, or a single item.
#[derive(Debug)]
pub struct ValueNode {
    pub is_list: bool,
    pub start: usize,
    pub end: usize,
    pub items: Vec<Item>,
}

pub open spec fn scalar_ok(s: Scalar, n: int) -> bool {
    &&& s.start <= s.end <= n
    &&& s.text_start <= s.text_end <= n
}

pub open spec fn item_ok(i: Item, n: int) -> bool {
    &&& scalar_ok(i.value, n)
    &&& (i.from matches Some(f) ==> scalar_ok(f, n))
    &&& (i.to matches Some(t) ==> scalar_ok(t, n))
    &&& i.start <= i.end <= n
}

/// Every position of the value lies within a text of `n` characters, and a
/// value that is not a list has exactly one item.
pub open spec fn node_ok(node: ValueNode, n: int) -> bool {
    &&& node.start <= node.end <= n
    &&& (!node.is_list ==> node.items@.len() == 1)
    &&& forall|k: int| 0 <= k < node.items@.len() ==> item_ok(#[trigger] node.items@[k], n)
}

impl ScalarKind {
    pub open spec fn spec_name(self) -> Seq<char> {
        match self {
            ScalarKind::Str => "string"@,
            ScalarKind::Integer => "integer"@,
            ScalarKind::Float => "float"@,
            ScalarKind::Word => "identifier"@,
        }
    }

    pub open spec fn spec_name_str(self) -> &'static str {
        match self {
            ScalarKind::Str => "string",
            ScalarKind::Integer => "integer",
            ScalarKind::Float => "float",
            ScalarKind::Word => "identifier",
        }
    }

    /// The name of the kind, as diagnostics give it.
    pub fn name(&self) -> (r: &'static str)
        ensures
            r@ == self.spec_name(),
            r == self.spec_name_str(),
    {
        match self {
            ScalarKind::Str => "string",
            ScalarKind::Integer => "integer",
            ScalarKind::Float => "float",
            ScalarKind::Word => "identifier",
        }
    }
}

/// The single value a node stands for: its only item when that item has no
/// timestamp, whether or not it is written in braces.
pub open spec fn spec_node_scalar(node: ValueNode) -> Option<Scalar> {
    if node.items@.len() == 1 && node.items@[0].from is None {
        Some(node.items@[0].value)
    } else {
        None
    }
}

pub fn node_scalar(node: &ValueNode) -> (r: Option<Scalar>)
    ensures
        r == spec_node_scalar(*node),
{
    if node.items.len() == 1 && node.items[0].from.is_none() {
        Some(node.items[0].value)
    } else {
        None
    }
}

/// The name of what a node holds, as diagnostics give it.
pub open spec fn spec_node_kind_name(node: ValueNode) -> Seq<char> {
    match spec_node_scalar(node) {
        Some(s) => s.kind.spec_name(),
        None => if node.is_list {
            "list"@
        } else {
            "timed_value"@
        },
    }
}

/// The name of what a node of shape `sh` holds, as diagnostics give it.
pub open spec fn shape_kind_str(sh: NodeShape) -> &'static str {
    match shape_scalar(sh) {
        Some(s) => s.kind.spec_name_str(),
        None => if sh.0 {
            "list"
        } else {
            "timed_value"
        },
    }
}

pub fn node_kind_name(node: &ValueNode) -> (r: &'static str)
    ensures
        r@ == spec_node_kind_name(*node),
        r == shape_kind_str(shape(*node)),
{
    match node_scalar(node) {
        Some(s) => s.kind.name(),
        None => if node.is_list {
            "list"
        } else {
            "timed_value"
        },
    }
}

/// A value node for one item of a list.
pub fn item_node(item: Item) -> (r: ValueNode)
    ensures
        !r.is_list,
        r.start == item.start,
        r.end == item.end,
        r.items@ == seq![item],
{
    let mut items: Vec<Item> = Vec::new();
    items.push(item);
    ValueNode { is_list: false, start: item.start, end: item.end, items }
}


/// What a value node is, as plain values: whether it is a list, where it
/// starts and ends, and its items.
pub type NodeShape = (bool, int, int, Seq<Item>);

pub open spec fn shape(node: ValueNode) -> NodeShape {
    (node.is_list, node.start as int, node.end as int, node.items@)
}

/// The shape of the node that holds one item alone.
pub open spec fn item_shape(item: Item) -> NodeShape {
    (false, item.start as int, item.end as int, seq![item])
}

/// The single value of a node shape: its only item when that item has no
/// timestamp.
pub open spec fn shape_scalar(sh: NodeShape) -> Option<Scalar> {
    if sh.3.len() == 1 && sh.3[0].from is None {
        Some(sh.3[0].value)
    } else {
        None
    }
}

/// The text of a node: of its single value, or of all of it.
pub open spec fn spec_node_text(s: Seq<char>, sh: NodeShape) -> Seq<char> {
    match shape_scalar(sh) {
        Some(sc) => s.subrange(sc.start as int, sc.end as int),
        None => s.subrange(sh.1, sh.2),
    }
}

/// A number at `a`, within `a..b`: digits, then optionally `.` and at least
/// one digit (a `.` followed by another `.` is not part of it).
pub open spec fn spec_lex_number(s: Seq<char>, a: int, b: int) -> Option<Scalar> {
    let d = digits_end_spec(s, a, b);
    if d == a {
        None
    } else if d + 1 < b && s[d] == '.' && s[d + 1] != '.' && digits_end_spec(s, d + 1, b) > d + 1 {
        let f = digits_end_spec(s, d + 1, b);
        Some(Scalar { kind: ScalarKind::Float, start: a as usize, end: f as usize, text_start: a as usize, text_end: f as usize })
    } else {
        Some(Scalar { kind: ScalarKind::Integer, start: a as usize, end: d as usize, text_start: a as usize, text_end: d as usize })
    }
}

/// Whether the value at `a` is a string whose closing quote is missing
/// before `b`.
pub open spec fn unclosed_string(s: Seq<char>, a: int, b: int) -> bool {
    s[a] == '"' && find_spec(s, a + 1, b, '"') >= b
}

/// A single value at `a`, within `a..b`: a quoted string (running to `b`
/// when unclosed), or a word, which is an integer when it is all digits, a
/// float when it is digits, `.` and digits, and a bare word otherwise.
pub open spec fn spec_scalar(s: Seq<char>, a: int, b: int) -> Option<Scalar> {
    if s[a] == '"' {
        let q = find_spec(s, a + 1, b, '"');
        if q < b {
            Some(Scalar { kind: ScalarKind::Str, start: a as usize, end: (q + 1) as usize, text_start: (a + 1) as usize, text_end: q as usize })
        } else {
            Some(Scalar { kind: ScalarKind::Str, start: a as usize, end: b as usize, text_start: (a + 1) as usize, text_end: b as usize })
        }
    } else {
        let w = word_end_spec(s, a, b);
        if w == a {
            None
        } else {
            let d = digits_end_spec(s, a, w);
            let kind = if d == w {
                ScalarKind::Integer
            } else if d > a && d + 1 < w && s[d] == '.' && digits_end_spec(s, d + 1, w) == w {
                ScalarKind::Float
            } else {
                ScalarKind::Word
            };
            Some(Scalar { kind, start: a as usize, end: w as usize, text_start: a as usize, text_end: w as usize })
        }
    }
}

/// An item at `a`, within `a..b`: a single value, then optionally `:` and
/// a number, then optionally `..` and a number.
pub open spec fn spec_item(s: Seq<char>, a: int, b: int) -> Option<Item> {
    match spec_scalar(s, a, b) {
        None => None,
        Some(v) => {
            let e = v.end as int;
            if e < b && s[e] == ':' {
                match spec_lex_number(s, e + 1, b) {
                    None => None,
                    Some(f) => {
                        let fe = f.end as int;
                        if fe + 2 < b && s[fe] == '.' && s[fe + 1] == '.' {
                            match spec_lex_number(s, fe + 2, b) {
                                None => None,
                                Some(t) => Some(Item { value: v, from: Some(f), to: Some(t), start: a as usize, end: t.end }),
                            }
                        } else {
                            Some(Item { value: v, from: Some(f), to: None, start: a as usize, end: fe as usize })
                        }
                    },
                }
            } else {
                Some(Item { value: v, from: None, to: None, start: a as usize, end: e as usize })
            }
        },
    }
}

/// The items of a braced list from `pos`, and where the list ends: items
/// are separated by commas (and blanks), and the list ends after its `}`,
/// or at `b` when the brace is missing.
pub open spec fn spec_list_from(s: Seq<char>, pos: int, b: int) -> Option<(Seq<Item>, int)>
    decreases b - pos,
{
    if pos >= b {
        Some((Seq::empty(), b))
    } else if pos < 0 {
        None
    } else {
        match spec_item(s, pos, b) {
            None => None,
            Some(it) => {
                let next = skip_blanks_spec(s, it.end as int, b);
                if next >= b {
                    Some((seq![it], b))
                } else if s[next] == '}' {
                    Some((seq![it], next + 1))
                } else if s[next] != ',' {
                    None
                } else {
                    let p2 = skip_blanks_spec(s, next + 1, b);
                    if pos < p2 <= b {
                        match spec_list_from(s, p2, b) {
                            Some((rest, e)) => Some((seq![it] + rest, e)),
                            None => None,
                        }
                    } else {
                        None
                    }
                }
            },
        }
    }
}

/// `prefix` followed by the items of a list read after it.
pub open spec fn prepend_items(prefix: Seq<Item>, r: Option<(Seq<Item>, int)>) -> Option<(Seq<Item>, int)> {
    match r {
        Some((rest, e)) => Some((prefix + rest, e)),
        None => None,
    }
}

/// The value of an assignment at `a`, within `a..b`: a single item, or a
/// braced list of items.
pub open spec fn spec_value_shape(s: Seq<char>, a: int, b: int) -> Option<NodeShape> {
    if s[a] != '{' {
        match spec_item(s, a, b) {
            Some(it) => Some(item_shape(it)),
            None => None,
        }
    } else {
        let pos = skip_blanks_spec(s, a + 1, b);
        if pos < b && s[pos] == '}' {
            Some((true, a, pos + 1, Seq::empty()))
        } else {
            match spec_list_from(s, pos, b) {
                Some((items, e)) => Some((true, a, e, items)),
                None => None,
            }
        }
    }
}


/// Ten to the power `n`.
pub open spec fn pow10(n: nat) -> nat
    decreases n,
{
    if n == 0 {
        1
    } else {
        10 * pow10((n - 1) as nat)
    }
}

pub proof fn lemma_pow10_monotone(m: nat, n: nat)
    requires
        m <= n,
    ensures
        1 <= pow10(m) <= pow10(n),
    decreases n,
{
    if n > 0 {
        if m < n {
            lemma_pow10_monotone(m, (n - 1) as nat);
        } else {
            lemma_pow10_monotone((m - 1) as nat, (n - 1) as nat);
        }
    }
}

/// The number of digits after the `.` of a number, if it has one.
pub open spec fn decimal_places(s: Seq<char>, sc: Scalar) -> nat {
    let dot = find_spec(s, sc.start as int, sc.end as int, '.');
    if dot < sc.end {
        (sc.end - dot - 1) as nat
    } else {
        0
    }
}

/// The digits of a number without its `.`.
pub open spec fn decimal_digits(s: Seq<char>, sc: Scalar) -> Seq<char> {
    let dot = find_spec(s, sc.start as int, sc.end as int, '.');
    if dot < sc.end {
        s.subrange(sc.start as int, dot) + s.subrange(dot + 1, sc.end as int)
    } else {
        s.subrange(sc.start as int, dot)
    }
}

/// A decimal number (`12` or `1.5`) held exactly: its digits over ten to
/// the number of its decimal places, when both fit in a `usize`.
pub open spec fn spec_decimal(s: Seq<char>, sc: Scalar) -> Option<Decimal> {
    if pow10(decimal_places(s, sc)) > usize::MAX {
        None
    } else {
        match spec_parse_usize(decimal_digits(s, sc)) {
            Some(n) => Some(Decimal { numerator: n, denominator: pow10(decimal_places(s, sc)) as usize }),
            None => None,
        }
    }
}

} // verus!
