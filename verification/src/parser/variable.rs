//! Literals and paths.

use vstd::prelude::*;
use vstd::string::StringExecFns;
use crate::parser::chars::{run_end, scan, CharClass};
use crate::parser::error::{ParserError, ParserErrorKind, ParserErrorKindView, ParserErrorView};
use crate::parser::models::{Literal, LiteralView};
use crate::parser::span::{Span, SpanView};

verus! {

/// Whether `s` holds the character `c` at index `p`.
pub open spec fn is_char(s: Seq<char>, p: int, c: char) -> bool {
    0 <= p < s.len() && s[p] == c
}

/// Whether the character `c` stands at index `p` of `i`.
pub fn char_is(i: &Span, p: usize, c: char) -> (b: bool)
    ensures
        b == is_char(i@.fragment, p as int, c),
        i@.fragment.len() <= usize::MAX,
{
    p < i.len() && i.char_at(p) == c
}

/// Where the closing quote of the string that opens at `from` stands. The
/// string may be empty, and none of its characters is a double quote.
pub open spec fn quoted_end(s: Seq<char>, from: int) -> Option<int> {
    let q = run_end(s, CharClass::NotQuote, from + 1);
    if is_char(s, from, '"') && from + 1 <= q < s.len() {
        Some(q)
    } else {
        None
    }
}

/// A quoted string at `from`: the text between the quotes, and where what
/// follows the closing quote starts.
pub open spec fn spec_quoted_string(i: SpanView, from: int) -> Option<(SpanView, int)> {
    match quoted_end(i.fragment, from) {
        Some(q) => Some((i.slice(from + 1, q), q + 1)),
        None => None,
    }
}

/// Reads a quoted string at `from`.
pub fn quoted_string(i: &Span, from: usize) -> (r: Option<(Span, usize)>)
    requires
        from <= i@.fragment.len(),
    ensures
        match r {
            Some((body, end)) => spec_quoted_string(i@, from as int) == Some((body@, end as int))
                && from < end <= i@.fragment.len(),
            None => spec_quoted_string(i@, from as int) is None,
        },
{
    if !char_is(i, from, '"') {
        return None;
    }
    let q = scan(i.chars(), CharClass::NotQuote, from + 1);
    if q < i.len() {
        Some((i.slice(from + 1, q), q + 1))
    } else {
        None
    }
}

/// Where what follows an optional sign at `p` starts.
pub open spec fn sign_end(s: Seq<char>, p: int) -> int {
    if is_char(s, p, '+') || is_char(s, p, '-') {
        p + 1
    } else {
        p
    }
}

/// Where the digits of a number that start at `p` end: digits, which a dot
/// and further digits may follow, or a dot and digits.
pub open spec fn mantissa_end(s: Seq<char>, p: int) -> Option<int> {
    let d = run_end(s, CharClass::Digit, p);
    if d > p {
        if is_char(s, d, '.') {
            Some(run_end(s, CharClass::Digit, d + 1))
        } else {
            Some(d)
        }
    } else if is_char(s, p, '.') && run_end(s, CharClass::Digit, p + 1) > p + 1 {
        Some(run_end(s, CharClass::Digit, p + 1))
    } else {
        None
    }
}

/// Where the exponent that may follow the digits of a number at `m` ends.
/// After `e` or `E` and an optional sign, digits must follow.
pub open spec fn exponent_end(s: Seq<char>, m: int) -> Option<int> {
    if is_char(s, m, 'e') || is_char(s, m, 'E') {
        let q = sign_end(s, m + 1);
        let d = run_end(s, CharClass::Digit, q);
        if d > q {
            Some(d)
        } else {
            None
        }
    } else {
        Some(m)
    }
}

/// Where the number that starts at `from` ends: an optional sign, the
/// digits, and an optional exponent.
pub open spec fn number_end(s: Seq<char>, from: int) -> Option<int> {
    match mantissa_end(s, sign_end(s, from)) {
        Some(m) => exponent_end(s, m),
        None => None,
    }
}

fn skip_sign(i: &Span, p: usize) -> (r: usize)
    requires
        p <= i@.fragment.len(),
    ensures
        r == sign_end(i@.fragment, p as int),
        p <= r <= i@.fragment.len(),
{
    if char_is(i, p, '+') || char_is(i, p, '-') {
        p + 1
    } else {
        p
    }
}

/// Finds where the number that starts at `from` ends.
pub fn number(i: &Span, from: usize) -> (r: Option<usize>)
    requires
        from <= i@.fragment.len(),
    ensures
        match r {
            Some(end) => number_end(i@.fragment, from as int) == Some(end as int) && from < end
                <= i@.fragment.len(),
            None => number_end(i@.fragment, from as int) is None,
        },
{
    let p = skip_sign(i, from);
    let d = scan(i.chars(), CharClass::Digit, p);
    let m = if d > p {
        if char_is(i, d, '.') {
            scan(i.chars(), CharClass::Digit, d + 1)
        } else {
            d
        }
    } else if char_is(i, p, '.') {
        let f = scan(i.chars(), CharClass::Digit, p + 1);
        if f > p + 1 {
            f
        } else {
            return None;
        }
    } else {
        return None;
    };
    if char_is(i, m, 'e') || char_is(i, m, 'E') {
        let q = skip_sign(i, m + 1);
        let e = scan(i.chars(), CharClass::Digit, q);
        if e > q {
            Some(e)
        } else {
            None
        }
    } else {
        Some(m)
    }
}

/// A literal at `from`: a quoted string, or else a number.
pub open spec fn spec_literal(i: SpanView, from: int) -> Option<(LiteralView, int)> {
    match spec_quoted_string(i, from) {
        Some((body, end)) => Some((LiteralView::String(body), end)),
        None => match number_end(i.fragment, from) {
            Some(end) => Some((LiteralView::Number(i.slice(from, end)), end)),
            None => None,
        },
    }
}

/// Reads a literal at `from`.
pub fn literal_at(i: &Span, from: usize) -> (r: Option<(Literal, usize)>)
    requires
        from <= i@.fragment.len(),
    ensures
        match r {
            Some((v, end)) => spec_literal(i@, from as int) == Some((v@, end as int)) && from
                < end <= i@.fragment.len(),
            None => spec_literal(i@, from as int) is None,
        },
{
    match quoted_string(i, from) {
        Some((body, end)) => Some((Literal::String(body), end)),
        None => match number(i, from) {
            Some(end) => Some((Literal::Number(i.slice(from, end)), end)),
            None => None,
        },
    }
}

/// Reads a literal at the start of `i`, and returns it with what follows.
/// Where there is none, the error is an unexpected token in place of a
/// `variable`, found at `i`.
pub fn literal(i: Span) -> (r: Result<(Span, Literal), ParserError<Span>>)
    ensures
        match r {
            Ok((rest, v)) => exists|end: int|
                spec_literal(i@, 0) == Some((v@, end)) && rest@ == i@.rest(end),
            Err(e) => spec_literal(i@, 0) is None && e@ == ParserErrorView::unexpected(
                "variable"@,
                i@,
            ),
        },
{
    match literal_at(&i, 0) {
        Some((v, end)) => Ok((i.rest(end), v)),
        None => Err(ParserError::unexpected("variable", i)),
    }
}

/// Where the prefix of a relative path at `from` ends: `./` or `../`.
pub open spec fn prefix_end(s: Seq<char>, from: int) -> Option<int> {
    if is_char(s, from, '.') && is_char(s, from + 1, '/') {
        Some(from + 2)
    } else if is_char(s, from, '.') && is_char(s, from + 1, '.') && is_char(s, from + 2, '/') {
        Some(from + 3)
    } else {
        None
    }
}

/// Finds where the prefix of a relative path at `from` ends.
pub fn path_prefix(i: &Span, from: usize) -> (r: Option<usize>)
    requires
        from <= i@.fragment.len(),
    ensures
        match r {
            Some(end) => prefix_end(i@.fragment, from as int) == Some(end as int) && from < end
                <= i@.fragment.len(),
            None => prefix_end(i@.fragment, from as int) is None,
        },
{
    if !char_is(i, from, '.') {
        return None;
    }
    if char_is(i, from + 1, '/') {
        Some(from + 2)
    } else if char_is(i, from + 1, '.') && char_is(i, from + 2, '/') {
        Some(from + 3)
    } else {
        None
    }
}

/// Where the characters of a path that start at `from` end, where there is
/// at least one.
pub open spec fn path_end(s: Seq<char>, from: int) -> Option<int> {
    let e = run_end(s, CharClass::Path, from);
    if e > from {
        Some(e)
    } else {
        None
    }
}

/// Finds where the characters of a path that start at `from` end.
pub fn path_characters(i: &Span, from: usize) -> (r: Option<usize>)
    requires
        from <= i@.fragment.len(),
    ensures
        match r {
            Some(end) => path_end(i@.fragment, from as int) == Some(end as int) && from < end
                <= i@.fragment.len(),
            None => path_end(i@.fragment, from as int) is None,
        },
{
    let e = scan(i.chars(), CharClass::Path, from);
    if e > from {
        Some(e)
    } else {
        None
    }
}

/// A relative path at `from`: where its prefix ends and where it ends.
pub open spec fn relative_path_ends(s: Seq<char>, from: int) -> Option<(int, int)> {
    match prefix_end(s, from) {
        Some(p) => match path_end(s, p) {
            Some(e) => Some((p, e)),
            None => None,
        },
        None => None,
    }
}

/// What `relative_path` reports where there is no path at the start of `i`:
/// an unexpected token, found at `i` where the prefix is missing, and behind
/// the prefix where no path follows it.
pub open spec fn relative_path_error(i: SpanView) -> ParserErrorView {
    ParserErrorView {
        kind: ParserErrorKindView::UnexpectedToken("gg"@),
        pos: match prefix_end(i.fragment, 0) {
            Some(p) => i.rest(p),
            None => i,
        },
        context: i,
    }
}

/// Matches relative paths such as `./test.txt` and `../../test.txt`, and
/// returns the path, prefix and all, with what follows it.
pub fn relative_path(i: Span) -> (r: Result<(Span, Span), ParserError<Span>>)
    ensures
        match r {
            Ok((rest, path)) => exists|p: int, e: int|
                relative_path_ends(i@.fragment, 0) == Some((p, e)) && path@ == i@.slice(0, e)
                    && rest@ == i@.rest(e),
            Err(e) => relative_path_ends(i@.fragment, 0) is None && e@ == relative_path_error(i@),
        },
{
    match path_prefix(&i, 0) {
        Some(p) => match path_characters(&i, p) {
            Some(e) => Ok((i.rest(e), i.slice(0, e))),
            None => {
                let pos = i.rest(p);
                Err(
                    ParserError {
                        kind: ParserErrorKind::UnexpectedToken("gg".to_owned()),
                        pos,
                        context: i,
                    },
                )
            },
        },
        None => {
            let pos = i.clone();
            Err(
                ParserError {
                    kind: ParserErrorKind::UnexpectedToken("gg".to_owned()),
                    pos,
                    context: i,
                },
            )
        },
    }
}

impl LiteralView {
    /// The literal as it is shown: a string between double quotes, a number
    /// as it is written.
    pub open spec fn inspect(self) -> Seq<char> {
        match self {
            LiteralView::String(s) => seq!['"'] + s.fragment + seq!['"'],
            LiteralView::Number(s) => s.fragment,
        }
    }
}

impl Literal {
    /// The literal as it is shown.
    pub fn inspect(&self) -> (r: String)
        ensures
            r@ == self@.inspect(),
    {
        match self {
            Literal::String(s) => {
                let mut r = String::new();
                r.push('"');
                let body = s.fragment();
                r.append(body.as_str());
                r.push('"');
                r
            },
            Literal::Number(s) => s.fragment(),
        }
    }
}

} // verus!
