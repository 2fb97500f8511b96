use vstd::prelude::*;

use crate::ast::source::SourceText;

verus! {

/// Blanks inside a line: space, tab and carriage return.
pub open spec fn is_blank(c: char) -> bool {
    c == ' ' || c == '\t' || c == '\r'
}

pub open spec fn is_digit_char(c: char) -> bool {
    '0' <= c && c <= '9'
}

pub open spec fn is_letter(c: char) -> bool {
    ('a' <= c && c <= 'z') || ('A' <= c && c <= 'Z')
}

/// Characters of a name or a bare word: letters, digits, `_`, `#`, `+`, `-`, `.`.
pub open spec fn is_word_char(c: char) -> bool {
    is_letter(c) || is_digit_char(c) || c == '_' || c == '#' || c == '+' || c == '-' || c == '.'
}

pub fn blank(c: char) -> (r: bool)
    ensures
        r == is_blank(c),
{
    c == ' ' || c == '\t' || c == '\r'
}

pub fn digit(c: char) -> (r: bool)
    ensures
        r == is_digit_char(c),
{
    '0' <= c && c <= '9'
}

pub fn letter(c: char) -> (r: bool)
    ensures
        r == is_letter(c),
{
    ('a' <= c && c <= 'z') || ('A' <= c && c <= 'Z')
}

pub fn word_char(c: char) -> (r: bool)
    ensures
        r == is_word_char(c),
{
    letter(c) || digit(c) || c == '_' || c == '#' || c == '+' || c == '-' || c == '.'
}

/// The index of the first character of `a..b` that is not blank, or `b`.
pub open spec fn skip_blanks_spec(s: Seq<char>, a: int, b: int) -> int
    decreases b - a,
{
    if a >= b {
        b
    } else if is_blank(s[a]) {
        skip_blanks_spec(s, a + 1, b)
    } else {
        a
    }
}

/// One past the last character of `a..b` that is not blank, or `a`.
pub open spec fn trim_end_spec(s: Seq<char>, a: int, b: int) -> int
    decreases b - a,
{
    if a >= b {
        a
    } else if is_blank(s[b - 1]) {
        trim_end_spec(s, a, b - 1)
    } else {
        b
    }
}

/// The end of the run of characters of `a..b` that satisfy `is_word_char`.
pub open spec fn word_end_spec(s: Seq<char>, a: int, b: int) -> int
    decreases b - a,
{
    if a >= b {
        b
    } else if is_word_char(s[a]) {
        word_end_spec(s, a + 1, b)
    } else {
        a
    }
}

/// The end of the run of digits of `a..b`.
pub open spec fn digits_end_spec(s: Seq<char>, a: int, b: int) -> int
    decreases b - a,
{
    if a >= b {
        b
    } else if is_digit_char(s[a]) {
        digits_end_spec(s, a + 1, b)
    } else {
        a
    }
}

/// The index of the first `c` in `a..b`, or `b`.
pub open spec fn find_spec(s: Seq<char>, a: int, b: int, c: char) -> int
    decreases b - a,
{
    if a >= b {
        b
    } else if s[a] == c {
        a
    } else {
        find_spec(s, a + 1, b, c)
    }
}

pub proof fn lemma_find_bounds(s: Seq<char>, a: int, b: int, c: char)
    requires
        a <= b,
    ensures
        a <= find_spec(s, a, b, c) <= b,
        find_spec(s, a, b, c) < b ==> s[find_spec(s, a, b, c)] == c,
    decreases b - a,
{
    if a < b && s[a] != c {
        lemma_find_bounds(s, a + 1, b, c);
    }
}

impl<'a> SourceText<'a> {
    /// The index of the first blank-free character of `a..b`, or `b`.
    pub fn skip_blanks(&self, a: usize, b: usize) -> (r: usize)
        requires
            self.wf(),
            a <= b <= self.spec_chars().len(),
        ensures
            r == skip_blanks_spec(self.spec_chars(), a as int, b as int),
            a <= r <= b,
    {
        let mut i = a;
        while i < b && blank(self.char_at(i))
            invariant
                self.wf(),
                a <= i <= b,
                b <= self.spec_chars().len(),
                skip_blanks_spec(self.spec_chars(), a as int, b as int) == skip_blanks_spec(
                    self.spec_chars(),
                    i as int,
                    b as int,
                ),
            decreases b - i,
        {
            i = i + 1;
        }
        i
    }

    /// One past the last character of `a..b` that is not blank, or `a`.
    pub fn trim_end(&self, a: usize, b: usize) -> (r: usize)
        requires
            self.wf(),
            a <= b <= self.spec_chars().len(),
        ensures
            r == trim_end_spec(self.spec_chars(), a as int, b as int),
            a <= r <= b,
    {
        let mut j = b;
        while j > a && blank(self.char_at(j - 1))
            invariant
                self.wf(),
                a <= j <= b,
                b <= self.spec_chars().len(),
                trim_end_spec(self.spec_chars(), a as int, b as int) == trim_end_spec(
                    self.spec_chars(),
                    a as int,
                    j as int,
                ),
            decreases j - a,
        {
            j = j - 1;
        }
        j
    }

    /// The end of the run of word characters that starts at `a`.
    pub fn word_end(&self, a: usize, b: usize) -> (r: usize)
        requires
            self.wf(),
            a <= b <= self.spec_chars().len(),
        ensures
            r == word_end_spec(self.spec_chars(), a as int, b as int),
            a <= r <= b,
    {
        let mut i = a;
        while i < b && word_char(self.char_at(i))
            invariant
                self.wf(),
                a <= i <= b,
                b <= self.spec_chars().len(),
                word_end_spec(self.spec_chars(), a as int, b as int) == word_end_spec(
                    self.spec_chars(),
                    i as int,
                    b as int,
                ),
            decreases b - i,
        {
            i = i + 1;
        }
        i
    }

    /// The end of the run of digits that starts at `a`.
    pub fn digits_end(&self, a: usize, b: usize) -> (r: usize)
        requires
            self.wf(),
            a <= b <= self.spec_chars().len(),
        ensures
            r == digits_end_spec(self.spec_chars(), a as int, b as int),
            a <= r <= b,
    {
        let mut i = a;
        while i < b && digit(self.char_at(i))
            invariant
                self.wf(),
                a <= i <= b,
                b <= self.spec_chars().len(),
                digits_end_spec(self.spec_chars(), a as int, b as int) == digits_end_spec(
                    self.spec_chars(),
                    i as int,
                    b as int,
                ),
            decreases b - i,
        {
            i = i + 1;
        }
        i
    }

    /// The index of the first `c` in `a..b`, or `b`.
    pub fn find(&self, a: usize, b: usize, c: char) -> (r: usize)
        requires
            self.wf(),
            a <= b <= self.spec_chars().len(),
        ensures
            r == find_spec(self.spec_chars(), a as int, b as int, c),
            a <= r <= b,
            r < b ==> self.spec_chars()[r as int] == c,
    {
        proof {
            lemma_find_bounds(self.spec_chars(), a as int, b as int, c);
        }
        let mut i = a;
        while i < b && self.char_at(i) != c
            invariant
                self.wf(),
                a <= i <= b,
                b <= self.spec_chars().len(),
                find_spec(self.spec_chars(), a as int, b as int, c) == find_spec(
                    self.spec_chars(),
                    i as int,
                    b as int,
                    c,
                ),
            decreases b - i,
        {
            i = i + 1;
        }
        i
    }

    /// Whether the characters `a..b` are exactly `word`.
    pub fn matches(&self, a: usize, b: usize, word: &str) -> (r: bool)
        requires
            self.wf(),
            a <= b <= self.spec_chars().len(),
        ensures
            r == (self.spec_chars().subrange(a as int, b as int) == word@),
    {
        let m = word.unicode_len();
        if b - a != m {
            proof {
                assert(self.spec_chars().subrange(a as int, b as int).len() != word@.len());
            }
            return false;
        }
        let mut k: usize = 0;
        while k < m
            invariant
                self.wf(),
                a <= b <= self.spec_chars().len(),
                b - a == m,
                m == word@.len(),
                k <= m,
                forall|j: int| 0 <= j < k ==> self.spec_chars()[a + j] == word@[j],
            decreases m - k,
        {
            if self.char_at(a + k) != word.get_char(k) {
                proof {
                    assert(self.spec_chars().subrange(a as int, b as int)[k as int] != word@[k as int]);
                }
                return false;
            }
            k = k + 1;
        }
        assert(self.spec_chars().subrange(a as int, b as int) =~= word@);
        true
    }
}

} // verus!
