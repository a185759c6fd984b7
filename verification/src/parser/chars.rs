//! Characters and sequences of characters: conversion, classes and scanning.

use vstd::prelude::*;

verus! {

/// `String::push` appends one character to the end of the string.
pub assume_specification[ std::string::String::push ](s: &mut std::string::String, ch: char)
    ensures
        final(s)@ == old(s)@.push(ch),
;

/// The characters of a string slice, in order.
pub fn to_chars(s: &str) -> (v: Vec<char>)
    ensures
        v@ == s@,
{
    let mut v: Vec<char> = Vec::new();
    for c in it: s.chars()
        invariant
            v@ == it.seq().subrange(0, it.index() as int),
            it.seq() == s@,
    {
        v.push(c);
    }
    v
}

/// The string made of the characters `v[from..to]`.
pub fn from_chars(v: &Vec<char>, from: usize, to: usize) -> (s: String)
    requires
        from <= to <= v.len(),
    ensures
        s@ == v@.subrange(from as int, to as int),
{
    let mut s = String::new();
    let mut i: usize = from;
    while i < to
        invariant
            from <= i <= to <= v.len(),
            s@ == v@.subrange(from as int, i as int),
        decreases to - i,
    {
        s.push(v[i]);
        i = i + 1;
    }
    s
}

/// A copy of the characters `v[from..to]`.
pub fn copy_chars(v: &Vec<char>, from: usize, to: usize) -> (r: Vec<char>)
    requires
        from <= to <= v.len(),
    ensures
        r@ == v@.subrange(from as int, to as int),
{
    let mut r: Vec<char> = Vec::new();
    let mut i: usize = from;
    while i < to
        invariant
            from <= i <= to <= v.len(),
            r@ == v@.subrange(from as int, i as int),
        decreases to - i,
    {
        r.push(v[i]);
        i = i + 1;
    }
    r
}

/// The sets of characters that the grammar scans for.
#[derive(Clone, Copy, Debug, PartialEq, Eq, Structural)]
pub enum CharClass {
    /// A space or a tab: one unit of indentation.
    Blank,
    /// A space, a tab, a carriage return or a line feed.
    Whitespace,
    /// An ASCII letter.
    Alpha,
    /// An ASCII digit.
    Digit,
    /// An ASCII letter or digit.
    Alphanumeric,
    /// A character of an identifier: an ASCII letter or digit, or `_`.
    Ident,
    /// A character of a path, after its prefix.
    Path,
    /// Anything but a double quote.
    NotQuote,
    /// Anything but a line feed.
    NotNewline,
    /// Anything but a dot.
    NotDot,
    /// A character of a dotted name in text: an ASCII letter or digit, `-`,
    /// `_` or a dot.
    Symbolic,
}

pub open spec fn is_alpha(c: char) -> bool {
    ('a' <= c && c <= 'z') || ('A' <= c && c <= 'Z')
}

pub open spec fn is_digit(c: char) -> bool {
    '0' <= c && c <= '9'
}

/// The characters that a path may hold after its prefix. Of the capital
/// letters only `A` to `F` belong to them.
pub open spec fn is_path_char(c: char) -> bool {
    c == '.' || c == '/' || c == '*' || c == '-' || c == '_' || ('a' <= c && c <= 'z') || is_digit(
        c,
    ) || ('A' <= c && c <= 'F')
}

impl CharClass {
    pub open spec fn holds(self, c: char) -> bool {
        match self {
            CharClass::Blank => c == ' ' || c == '\t',
            CharClass::Whitespace => c == ' ' || c == '\t' || c == '\r' || c == '\n',
            CharClass::Alpha => is_alpha(c),
            CharClass::Digit => is_digit(c),
            CharClass::Alphanumeric => is_alpha(c) || is_digit(c),
            CharClass::Ident => is_alpha(c) || is_digit(c) || c == '_',
            CharClass::Path => is_path_char(c),
            CharClass::NotQuote => c != '"',
            CharClass::NotNewline => c != '\n',
            CharClass::NotDot => c != '.',
            CharClass::Symbolic => is_alpha(c) || is_digit(c) || c == '-' || c == '_' || c == '.',
        }
    }

    /// Whether `c` belongs to the class.
    pub fn contains(self, c: char) -> (b: bool)
        ensures
            b == self.holds(c),
    {
        let alpha = ('a' <= c && c <= 'z') || ('A' <= c && c <= 'Z');
        let digit = '0' <= c && c <= '9';
        match self {
            CharClass::Blank => c == ' ' || c == '\t',
            CharClass::Whitespace => c == ' ' || c == '\t' || c == '\r' || c == '\n',
            CharClass::Alpha => alpha,
            CharClass::Digit => digit,
            CharClass::Alphanumeric => alpha || digit,
            CharClass::Ident => alpha || digit || c == '_',
            CharClass::Path => c == '.' || c == '/' || c == '*' || c == '-' || c == '_' || ('a' <= c
                && c <= 'z') || digit || ('A' <= c && c <= 'F'),
            CharClass::NotQuote => c != '"',
            CharClass::NotNewline => c != '\n',
            CharClass::NotDot => c != '.',
            CharClass::Symbolic => alpha || digit || c == '-' || c == '_' || c == '.',
        }
    }
}

/// The index at which the longest run of characters of `class` that starts
/// at `from` ends: the first index at or after `from` whose character is
/// outside the class, or the length of `s` where there is none.
pub open spec fn run_end(s: Seq<char>, class: CharClass, from: int) -> int
    decreases s.len() - from,
{
    if 0 <= from < s.len() && class.holds(s[from]) {
        run_end(s, class, from + 1)
    } else {
        from
    }
}

/// `run_end` is the one index that ends a run: all before it are in the
/// class, and the character at it, if any, is not.
pub proof fn lemma_run_end(s: Seq<char>, class: CharClass, from: int, end: int)
    requires
        0 <= from <= end <= s.len(),
        forall|j: int| from <= j < end ==> class.holds(#[trigger] s[j]),
        end == s.len() || !class.holds(s[end]),
    ensures
        run_end(s, class, from) == end,
    decreases end - from,
{
    if from < end {
        lemma_run_end(s, class, from + 1, end);
    }
}

/// What `run_end` returns lies between `from` and the end of `s`, bounds a
/// run of the class, and stops at a character outside it.
pub proof fn lemma_run_end_bounds(s: Seq<char>, class: CharClass, from: int)
    requires
        0 <= from <= s.len(),
    ensures
        from <= run_end(s, class, from) <= s.len(),
        forall|j: int| from <= j < run_end(s, class, from) ==> class.holds(#[trigger] s[j]),
        run_end(s, class, from) == s.len() || !class.holds(s[run_end(s, class, from)]),
    decreases s.len() - from,
{
    if from < s.len() && class.holds(s[from]) {
        lemma_run_end_bounds(s, class, from + 1);
    }
}

/// Scans the run of characters of `class` that starts at `from`.
pub fn scan(v: &Vec<char>, class: CharClass, from: usize) -> (end: usize)
    requires
        from <= v.len(),
    ensures
        end == run_end(v@, class, from as int),
        from <= end <= v.len(),
{
    let mut i: usize = from;
    while i < v.len() && class.contains(v[i])
        invariant
            from <= i <= v.len(),
            forall|j: int| from <= j < i ==> class.holds(#[trigger] v@[j]),
        decreases v.len() - i,
    {
        i = i + 1;
    }
    proof {
        lemma_run_end(v@, class, from as int, i as int);
    }
    i
}

} // verus!
