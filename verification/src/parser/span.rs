//! Fragments of source text that know where they stand.

use vstd::prelude::*;
use crate::parser::chars::{copy_chars, from_chars, to_chars};

verus! {

/// The number of bytes that `c` takes in UTF-8.
pub open spec fn char_width(c: char) -> nat {
    if (c as u32) < 0x80 {
        1
    } else if (c as u32) < 0x800 {
        2
    } else if (c as u32) < 0x10000 {
        3
    } else {
        4
    }
}

/// The number of bytes that `s` takes in UTF-8.
pub open spec fn utf8_len(s: Seq<char>) -> nat
    decreases s.len(),
{
    if s.len() == 0 {
        0
    } else {
        utf8_len(s.drop_last()) + char_width(s.last())
    }
}

/// The number of line feeds in `s`.
pub open spec fn newlines(s: Seq<char>) -> nat
    decreases s.len(),
{
    if s.len() == 0 {
        0
    } else {
        newlines(s.drop_last()) + if s.last() == '\n' {
            1nat
        } else {
            0nat
        }
    }
}

/// The column reached from `column` by reading `s`: a line feed leads to
/// column 1, any other character moves on by its width in bytes.
pub open spec fn column_after(column: nat, s: Seq<char>) -> nat
    decreases s.len(),
{
    if s.len() == 0 {
        column
    } else if s.last() == '\n' {
        1
    } else {
        column_after(column, s.drop_last()) + char_width(s.last())
    }
}

/// What a `Span` stands for: a fragment of text and the place of its first
/// character in the source.
pub struct SpanView {
    /// The text of the fragment.
    pub fragment: Seq<char>,
    /// The number of bytes of source before the fragment.
    pub offset: nat,
    /// The line on which the fragment starts; the first line is 1.
    pub line: nat,
    /// The column, in bytes, at which the fragment starts; the first is 1.
    pub column: nat,
    /// The text that was attached to the source this fragment is cut from.
    pub extra: Seq<char>,
}

impl SpanView {
    /// The span of a whole source text.
    pub open spec fn start(fragment: Seq<char>, extra: Seq<char>) -> SpanView {
        SpanView { fragment, offset: 0, line: 1, column: 1, extra }
    }

    /// The part of the fragment from index `from` up to `to`, at its place
    /// in the source.
    pub open spec fn slice(self, from: int, to: int) -> SpanView {
        let before = self.fragment.subrange(0, from);
        SpanView {
            fragment: self.fragment.subrange(from, to),
            offset: self.offset + utf8_len(before),
            line: self.line + newlines(before),
            column: column_after(self.column, before),
            extra: self.extra,
        }
    }

    /// What is left of the fragment after its first `from` characters.
    pub open spec fn rest(self, from: int) -> SpanView {
        self.slice(from, self.fragment.len() as int)
    }

    /// The same fragment with other text attached.
    pub open spec fn with_extra(self, extra: Seq<char>) -> SpanView {
        SpanView { extra, ..self }
    }
}

/// A character takes at most four bytes.
pub proof fn lemma_utf8_len_bound(s: Seq<char>)
    ensures
        utf8_len(s) <= 4 * s.len(),
    decreases s.len(),
{
    if s.len() > 0 {
        lemma_utf8_len_bound(s.drop_last());
    }
}

/// A text holds no more line feeds than bytes.
pub proof fn lemma_newlines_bound(s: Seq<char>)
    ensures
        newlines(s) <= utf8_len(s),
    decreases s.len(),
{
    if s.len() > 0 {
        lemma_newlines_bound(s.drop_last());
    }
}

/// Lengths, line feeds and columns add up over a concatenation.
pub proof fn lemma_measures_concat(column: nat, a: Seq<char>, b: Seq<char>)
    ensures
        utf8_len(a + b) == utf8_len(a) + utf8_len(b),
        newlines(a + b) == newlines(a) + newlines(b),
        column_after(column, a + b) == column_after(column_after(column, a), b),
        column >= 1 ==> column_after(column, a) >= 1,
        column_after(column, a) <= column + utf8_len(a),
    decreases b.len(),
{
    if b.len() == 0 {
        assert(a + b =~= a);
        lemma_column_bound(column, a);
    } else {
        assert((a + b).drop_last() =~= a + b.drop_last());
        lemma_measures_concat(column, a, b.drop_last());
    }
}

/// Reading a text moves the column on by no more than the bytes of the
/// text, and never before column 1.
pub proof fn lemma_column_bound(column: nat, a: Seq<char>)
    ensures
        column >= 1 ==> column_after(column, a) >= 1,
        column_after(column, a) <= column + utf8_len(a),
    decreases a.len(),
{
    if a.len() > 0 {
        lemma_column_bound(column, a.drop_last());
    }
}

/// A fragment of source text with the place where it starts: the offset in
/// bytes, the line and the column. Cutting a fragment keeps the places right.
#[derive(Debug, PartialEq)]
pub struct Span {
    chars: Vec<char>,
    offset: usize,
    line: usize,
    column: usize,
    extra: String,
}

impl View for Span {
    type V = SpanView;

    closed spec fn view(&self) -> SpanView {
        SpanView {
            fragment: self.chars@,
            offset: self.offset as nat,
            line: self.line as nat,
            column: self.column as nat,
            extra: self.extra@,
        }
    }
}

impl Span {
    #[verifier::type_invariant]
    spec fn inv(self) -> bool {
        &&& self.column >= 1
        &&& self.offset + utf8_len(self.chars@) <= usize::MAX
        &&& self.line + newlines(self.chars@) <= usize::MAX
        &&& self.column + utf8_len(self.chars@) <= usize::MAX
    }

    /// The span of a whole source text, with nothing attached.
    pub fn new(s: &str) -> (r: Span)
        requires
            4 * s@.len() < usize::MAX,
        ensures
            r@ == SpanView::start(s@, Seq::empty()),
    {
        let chars = to_chars(s);
        proof {
            lemma_utf8_len_bound(chars@);
            lemma_newlines_bound(chars@);
        }
        Span { chars, offset: 0, line: 1, column: 1, extra: String::new() }
    }

    /// The span of a whole source text, with `extra` attached.
    pub fn new_extra(s: &str, extra: &str) -> (r: Span)
        requires
            4 * s@.len() < usize::MAX,
        ensures
            r@ == SpanView::start(s@, extra@),
    {
        let chars = to_chars(s);
        proof {
            lemma_utf8_len_bound(chars@);
            lemma_newlines_bound(chars@);
        }
        Span { chars, offset: 0, line: 1, column: 1, extra: extra.to_owned() }
    }

    /// The number of characters in the fragment.
    pub fn len(&self) -> (n: usize)
        ensures
            n == self@.fragment.len(),
    {
        self.chars.len()
    }

    /// The character at index `i` of the fragment.
    pub fn char_at(&self, i: usize) -> (c: char)
        requires
            i < self@.fragment.len(),
        ensures
            c == self@.fragment[i as int],
    {
        self.chars[i]
    }

    /// The characters of the fragment.
    pub fn chars(&self) -> (v: &Vec<char>)
        ensures
            v@ == self@.fragment,
    {
        &self.chars
    }

    /// The text of the fragment.
    pub fn fragment(&self) -> (s: String)
        ensures
            s@ == self@.fragment,
    {
        let s = from_chars(&self.chars, 0, self.chars.len());
        assert(self.chars@.subrange(0, self.chars@.len() as int) =~= self.chars@);
        s
    }

    /// The number of bytes of source before the fragment.
    pub fn location_offset(&self) -> (n: usize)
        ensures
            n == self@.offset,
    {
        self.offset
    }

    /// The line on which the fragment starts.
    pub fn location_line(&self) -> (n: usize)
        ensures
            n == self@.line,
    {
        self.line
    }

    /// The column, in bytes, at which the fragment starts.
    pub fn get_column(&self) -> (n: usize)
        ensures
            n == self@.column,
    {
        self.column
    }

    /// The text attached to the source of the fragment.
    pub fn extra(&self) -> (s: String)
        ensures
            s@ == self@.extra,
    {
        self.extra.clone()
    }

    /// The part of the fragment from index `from` up to `to`.
    pub fn slice(&self, from: usize, to: usize) -> (r: Span)
        requires
            from <= to <= self@.fragment.len(),
        ensures
            r@ == self@.slice(from as int, to as int),
    {
        proof {
            use_type_invariant(self);
        }
        let mut offset = self.offset;
        let mut line = self.line;
        let mut column = self.column;
        let mut i: usize = 0;
        while i < from
            invariant
                i <= from <= to <= self.chars@.len(),
                self.column >= 1,
                self.offset + utf8_len(self.chars@) <= usize::MAX,
                self.line + newlines(self.chars@) <= usize::MAX,
                self.column + utf8_len(self.chars@) <= usize::MAX,
                offset == self.offset + utf8_len(self.chars@.subrange(0, i as int)),
                line == self.line + newlines(self.chars@.subrange(0, i as int)),
                column == column_after(self.column as nat, self.chars@.subrange(0, i as int)),
            decreases from - i,
        {
            let c = self.chars[i];
            proof {
                let head = self.chars@.subrange(0, i as int + 1);
                let tail = self.chars@.subrange(i as int + 1, self.chars@.len() as int);
                assert(head.drop_last() =~= self.chars@.subrange(0, i as int));
                assert(head + tail =~= self.chars@);
                lemma_measures_concat(self.column as nat, head, tail);
            }
            let code = c as u32;
            let width: usize = if code < 0x80 {
                1
            } else if code < 0x800 {
                2
            } else if code < 0x10000 {
                3
            } else {
                4
            };
            offset = offset + width;
            if c == '\n' {
                line = line + 1;
                column = 1;
            } else {
                column = column + width;
            }
            i = i + 1;
        }
        let chars = copy_chars(&self.chars, from, to);
        proof {
            let before = self.chars@.subrange(0, from as int);
            let mid = self.chars@.subrange(from as int, to as int);
            let after = self.chars@.subrange(to as int, self.chars@.len() as int);
            assert(before + (mid + after) =~= self.chars@);
            lemma_measures_concat(self.column as nat, before, mid + after);
            lemma_measures_concat(column as nat, mid, after);
        }
        Span { chars, offset, line, column, extra: self.extra.clone() }
    }

    /// What is left of the fragment after its first `from` characters.
    pub fn rest(&self, from: usize) -> (r: Span)
        requires
            from <= self@.fragment.len(),
        ensures
            r@ == self@.rest(from as int),
    {
        self.slice(from, self.chars.len())
    }

    /// The same fragment with `extra` attached in place of what was.
    pub fn with_extra(&self, extra: &str) -> (r: Span)
        ensures
            r@ == self@.with_extra(extra@),
    {
        proof {
            use_type_invariant(self);
        }
        let chars = copy_chars(&self.chars, 0, self.chars.len());
        assert(self.chars@.subrange(0, self.chars@.len() as int) =~= self.chars@);
        Span { chars, offset: self.offset, line: self.line, column: self.column, extra: extra.to_owned() }
    }
}

impl Clone for Span {
    fn clone(&self) -> (r: Span)
        ensures
            r@ == self@,
    {
        proof {
            use_type_invariant(self);
        }
        let chars = copy_chars(&self.chars, 0, self.chars.len());
        assert(self.chars@.subrange(0, self.chars@.len() as int) =~= self.chars@);
        Span { chars, offset: self.offset, line: self.line, column: self.column, extra: self.extra.clone() }
    }
}

} // verus!
