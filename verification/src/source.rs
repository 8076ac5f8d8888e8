//! The character cursor: one-lookahead iteration over the source text,
//! tracking the current line and the span of the in-progress lexeme.

use vstd::prelude::*;

use crate::Line;

verus! {

/// Whether the character is an ASCII decimal digit, as `char::is_digit(10)`
/// accepts.
pub open spec fn spec_is_digit(c: char) -> bool {
    48 <= c as int && c as int <= 57
}

/// The characters that Unicode classes as alphabetic; the class takes pages,
/// so it is named and left to the standard library.
pub uninterp spec fn alphabetic(c: char) -> bool;

/// The characters that Unicode classes as alphanumeric.
pub uninterp spec fn alphanumeric(c: char) -> bool;

/// Relies on `char::is_alphabetic`: membership in Unicode's Alphabetic class.
pub assume_specification[ char::is_alphabetic ](c: char) -> (r: bool)
    ensures
        r == alphabetic(c),
;

/// Relies on `char::is_alphanumeric`: alphabetic or a Unicode numeric
/// character.
pub assume_specification[ char::is_alphanumeric ](c: char) -> (r: bool)
    ensures
        r == alphanumeric(c),
;

/// The first position at or after `p` holding `c`, or the end of the text.
pub open spec fn find_from(text: Seq<char>, p: int, c: char) -> int
    decreases text.len() - p,
    when 0 <= p <= text.len()
{
    if p >= text.len() {
        text.len() as int
    } else if text[p] == c {
        p
    } else {
        find_from(text, p + 1, c)
    }
}

/// The first position at or after `p` holding a non-digit, or the end.
pub open spec fn digits_end(text: Seq<char>, p: int) -> int
    decreases text.len() - p,
    when 0 <= p <= text.len()
{
    if p >= text.len() {
        text.len() as int
    } else if !spec_is_digit(text[p]) {
        p
    } else {
        digits_end(text, p + 1)
    }
}

/// The first position at or after `p` holding a non-alphanumeric character,
/// or the end.
pub open spec fn alnum_end(text: Seq<char>, p: int) -> int
    decreases text.len() - p,
    when 0 <= p <= text.len()
{
    if p >= text.len() {
        text.len() as int
    } else if !alphanumeric(text[p]) {
        p
    } else {
        alnum_end(text, p + 1)
    }
}

/// How many newline characters stand in `text[a..b]`.
pub open spec fn count_nl(text: Seq<char>, a: int, b: int) -> int
    decreases b - a,
    when a <= b
{
    if a >= b {
        0
    } else {
        (if 0 <= a < text.len() && text[a] == '\n' {
            1int
        } else {
            0int
        }) + count_nl(text, a + 1, b)
    }
}

pub proof fn lemma_find_from_bounds(text: Seq<char>, p: int, c: char)
    requires
        0 <= p <= text.len(),
    ensures
        p <= find_from(text, p, c) <= text.len(),
    decreases text.len() - p,
{
    if p < text.len() && text[p] != c {
        lemma_find_from_bounds(text, p + 1, c);
    }
}

pub proof fn lemma_digits_end_bounds(text: Seq<char>, p: int)
    requires
        0 <= p <= text.len(),
    ensures
        p <= digits_end(text, p) <= text.len(),
    decreases text.len() - p,
{
    if p < text.len() && spec_is_digit(text[p]) {
        lemma_digits_end_bounds(text, p + 1);
    }
}

/// Every character the digit scan passes over is a digit.
pub proof fn lemma_digits_end_range(text: Seq<char>, p: int)
    requires
        0 <= p <= text.len(),
    ensures
        forall|i: int| p <= i < digits_end(text, p) ==> spec_is_digit(#[trigger] text[i]),
    decreases text.len() - p,
{
    if p < text.len() && spec_is_digit(text[p]) {
        lemma_digits_end_range(text, p + 1);
    }
}

pub proof fn lemma_alnum_end_bounds(text: Seq<char>, p: int)
    requires
        0 <= p <= text.len(),
    ensures
        p <= alnum_end(text, p) <= text.len(),
    decreases text.len() - p,
{
    if p < text.len() && alphanumeric(text[p]) {
        lemma_alnum_end_bounds(text, p + 1);
    }
}

/// One step of newline counting: the count over a single character.
pub proof fn lemma_count_nl_unit(text: Seq<char>, a: int)
    ensures
        count_nl(text, a, a + 1) == if 0 <= a < text.len() && text[a] == '\n' {
            1int
        } else {
            0int
        },
{
    assert(count_nl(text, a + 1, a + 1) == 0);
}

/// Newline counting splits at any midpoint.
pub proof fn lemma_count_nl_concat(text: Seq<char>, a: int, b: int, c: int)
    requires
        a <= b <= c,
    ensures
        count_nl(text, a, c) == count_nl(text, a, b) + count_nl(text, b, c),
    decreases b - a,
{
    if a < b {
        lemma_count_nl_concat(text, a + 1, b, c);
    }
}

/// Where the search stops short of the end, the sought character stands
/// there, and nowhere earlier.
pub proof fn lemma_find_from_found(text: Seq<char>, p: int, c: char)
    requires
        0 <= p <= text.len(),
    ensures
        find_from(text, p, c) < text.len() ==> text[find_from(text, p, c)] == c,
        forall|i: int| p <= i < find_from(text, p, c) ==> text[i] != c,
    decreases text.len() - p,
{
    if p < text.len() && text[p] != c {
        lemma_find_from_found(text, p + 1, c);
    }
}

pub proof fn lemma_count_nl_nonneg(text: Seq<char>, a: int, b: int)
    requires
        a <= b,
    ensures
        0 <= count_nl(text, a, b),
    decreases b - a,
{
    if a < b {
        lemma_count_nl_nonneg(text, a + 1, b);
    }
}

/// The mathematical content of a [`Source`].
pub struct SpecSource {
    pub text: Seq<char>,
    pub pos: int,
    pub lex_start: int,
    pub line: int,
}

/// The character stream: the decoded text, the read position, the start of
/// the pending lexeme, and the current line.
pub struct Source {
    text: Vec<char>,
    pos: usize,
    lex_start: usize,
    line: Line,
}

impl View for Source {
    type V = SpecSource;

    closed spec fn view(&self) -> SpecSource {
        SpecSource {
            text: self.text@,
            pos: self.pos as int,
            lex_start: self.lex_start as int,
            line: self.line as int,
        }
    }
}

impl Source {
    pub open spec fn wf(self) -> bool {
        &&& 0 <= self@.lex_start <= self@.pos <= self@.text.len()
        &&& 1 <= self@.line <= self@.pos + 1
        &&& self@.text.len() < usize::MAX
    }

    pub fn new(s: &str) -> (r: Source)
        requires
            s@.len() < usize::MAX,
        ensures
            r.wf(),
            r@.text == s@,
            r@.pos == 0,
            r@.lex_start == 0,
            r@.line == 1,
    {
        let n = s.unicode_len();
        let mut text: Vec<char> = Vec::new();
        let mut i: usize = 0;
        while i < n
            invariant
                i <= n,
                n == s@.len(),
                text@ =~= s@.subrange(0, i as int),
            decreases n - i,
        {
            text.push(s.get_char(i));
            i = i + 1;
        }
        proof {
            assert(text@ =~= s@);
        }
        Source { text, pos: 0, lex_start: 0, line: 1 }
    }

    pub fn peek_char(&self) -> (r: Option<char>)
        ensures
            r == if self@.pos < self@.text.len() {
                Some(self@.text[self@.pos])
            } else {
                Option::<char>::None
            },
    {
        if self.pos < self.text.len() {
            Some(self.text[self.pos])
        } else {
            None
        }
    }

    pub fn next_char(&mut self) -> (r: Option<char>)
        requires
            old(self).wf(),
        ensures
            final(self).wf(),
            final(self)@.text == old(self)@.text,
            final(self)@.lex_start == old(self)@.lex_start,
            old(self)@.pos < old(self)@.text.len() ==> {
                &&& r == Some(old(self)@.text[old(self)@.pos])
                &&& final(self)@.pos == old(self)@.pos + 1
                &&& final(self)@.line == old(self)@.line + count_nl(
                    old(self)@.text,
                    old(self)@.pos,
                    old(self)@.pos + 1,
                )
            },
            old(self)@.pos >= old(self)@.text.len() ==> r == Option::<char>::None && final(self)@
                == old(self)@,
    {
        if self.pos < self.text.len() {
            let c = self.text[self.pos];
            self.pos = self.pos + 1;
            if c == '\n' {
                self.line = self.line + 1;
            }
            proof {
                lemma_count_nl_unit(self@.text, old(self)@.pos);
            }
            Some(c)
        } else {
            None
        }
    }

    pub fn maybe_next_char(&mut self, expected: char) -> (r: Option<char>)
        requires
            old(self).wf(),
        ensures
            final(self).wf(),
            final(self)@.text == old(self)@.text,
            final(self)@.lex_start == old(self)@.lex_start,
            old(self)@.pos < old(self)@.text.len() && old(self)@.text[old(self)@.pos]
                == expected ==> {
                &&& r == Some(expected)
                &&& final(self)@.pos == old(self)@.pos + 1
                &&& final(self)@.line == old(self)@.line + count_nl(
                    old(self)@.text,
                    old(self)@.pos,
                    old(self)@.pos + 1,
                )
            },
            !(old(self)@.pos < old(self)@.text.len() && old(self)@.text[old(self)@.pos]
                == expected) ==> r == Option::<char>::None && final(self)@ == old(self)@,
    {
        if self.pos < self.text.len() && self.text[self.pos] == expected {
            self.next_char()
        } else {
            None
        }
    }

    pub fn consume_until(&mut self, expected: char)
        requires
            old(self).wf(),
        ensures
            final(self).wf(),
            final(self)@.text == old(self)@.text,
            final(self)@.lex_start == old(self)@.lex_start,
            final(self)@.pos == find_from(old(self)@.text, old(self)@.pos, expected),
            final(self)@.line == old(self)@.line + count_nl(
                old(self)@.text,
                old(self)@.pos,
                final(self)@.pos,
            ),
        decreases old(self)@.text.len() - old(self)@.pos,
    {
        proof {
            lemma_find_from_bounds(self@.text, self@.pos, expected);
        }
        if self.pos < self.text.len() && self.text[self.pos] != expected {
            self.next_char();
            self.consume_until(expected);
            proof {
                lemma_find_from_bounds(old(self)@.text, old(self)@.pos + 1, expected);
                lemma_count_nl_unit(old(self)@.text, old(self)@.pos);
            }
        }
    }

    pub fn consume_digits(&mut self)
        requires
            old(self).wf(),
        ensures
            final(self).wf(),
            final(self)@.text == old(self)@.text,
            final(self)@.lex_start == old(self)@.lex_start,
            final(self)@.pos == digits_end(old(self)@.text, old(self)@.pos),
            final(self)@.line == old(self)@.line + count_nl(
                old(self)@.text,
                old(self)@.pos,
                final(self)@.pos,
            ),
        decreases old(self)@.text.len() - old(self)@.pos,
    {
        proof {
            lemma_digits_end_bounds(self@.text, self@.pos);
        }
        if self.pos < self.text.len() {
            let c = self.text[self.pos];
            if '0' <= c && c <= '9' {
                self.next_char();
                self.consume_digits();
                proof {
                    lemma_digits_end_bounds(old(self)@.text, old(self)@.pos + 1);
                    lemma_count_nl_unit(old(self)@.text, old(self)@.pos);
                }
            }
        }
    }

    pub fn consume_alphanumeric(&mut self)
        requires
            old(self).wf(),
        ensures
            final(self).wf(),
            final(self)@.text == old(self)@.text,
            final(self)@.lex_start == old(self)@.lex_start,
            final(self)@.pos == alnum_end(old(self)@.text, old(self)@.pos),
            final(self)@.line == old(self)@.line + count_nl(
                old(self)@.text,
                old(self)@.pos,
                final(self)@.pos,
            ),
        decreases old(self)@.text.len() - old(self)@.pos,
    {
        proof {
            lemma_alnum_end_bounds(self@.text, self@.pos);
        }
        if self.pos < self.text.len() {
            let c = self.text[self.pos];
            if c.is_alphanumeric() {
                self.next_char();
                self.consume_alphanumeric();
                proof {
                    lemma_alnum_end_bounds(old(self)@.text, old(self)@.pos + 1);
                    lemma_count_nl_unit(old(self)@.text, old(self)@.pos);
                }
            }
        }
    }

    /// Returns the accumulated lexeme and starts a fresh one.
    pub fn flush_lexeme(&mut self) -> (r: String)
        requires
            old(self).wf(),
        ensures
            final(self).wf(),
            final(self)@.text == old(self)@.text,
            final(self)@.pos == old(self)@.pos,
            final(self)@.line == old(self)@.line,
            final(self)@.lex_start == old(self)@.pos,
            r@ == old(self)@.text.subrange(old(self)@.lex_start, old(self)@.pos),
    {
        let mut s = String::new();
        let mut i: usize = self.lex_start;
        while i < self.pos
            invariant
                self@.lex_start <= i <= self@.pos <= self@.text.len(),
                s@ =~= self@.text.subrange(self@.lex_start as int, i as int),
            decreases self.pos - i,
        {
            s.push(self.text[i]);
            proof {
                assert(s@ =~= self@.text.subrange(self@.lex_start as int, i as int + 1));
            }
            i = i + 1;
        }
        self.lex_start = self.pos;
        s
    }

    pub fn get_pos(&self) -> (r: usize)
        ensures
            r as int == self@.pos,
    {
        self.pos
    }

    /// The source slice between two character positions.
    pub fn slice_string(&self, from: usize, to: usize) -> (r: String)
        requires
            from <= to <= self@.text.len(),
        ensures
            r@ == self@.text.subrange(from as int, to as int),
    {
        let mut s = String::new();
        let mut i: usize = from;
        while i < to
            invariant
                from <= i <= to <= self@.text.len(),
                s@ =~= self@.text.subrange(from as int, i as int),
            decreases to - i,
        {
            s.push(self.text[i]);
            proof {
                assert(s@ =~= self@.text.subrange(from as int, i as int + 1));
            }
            i = i + 1;
        }
        s
    }

    pub fn get_current_line(&self) -> (r: Line)
        ensures
            r as int == self@.line,
    {
        self.line
    }
}

} // verus!
