//! The grammar of text lines: text, with expressions put in between `${`
//! and `}`.

use vstd::prelude::*;
use crate::parser::chars::{scan, CharClass};
use crate::parser::error::{ParserError, ParserErrorView};
use crate::parser::expression::{ahead, expression_at, skip_ws, spec_expression};
use crate::parser::models::{
    tokens_view,
    Expression,
    ExpressionView,
    StringToken,
    StringTokenView,
};
use crate::parser::span::{Span, SpanView};
use crate::parser::variable::{char_is, is_char};

verus! {

/// Whether `${` stands at `p`.
pub open spec fn opens_at(s: Seq<char>, p: int) -> bool {
    is_char(s, p, '$') && is_char(s, p + 1, '{')
}

/// Whether `${` stands at `p` of `i`.
pub fn opens(i: &Span, p: usize) -> (b: bool)
    ensures
        b == opens_at(i@.fragment, p as int),
        i@.fragment.len() <= usize::MAX,
{
    char_is(i, p, '$') && char_is(i, p + 1, '{')
}

/// Where the text that starts at `from` ends: before the next `${`, before
/// a line feed, or at the end of `s`.
pub open spec fn text_end(s: Seq<char>, from: int) -> int
    decreases s.len() + 1 - from,
{
    if 0 <= from < s.len() && s[from] != '\n' && !opens_at(s, from) {
        text_end(s, from + 1)
    } else {
        from
    }
}

/// Text ends at or behind where it starts, and inside the line.
pub proof fn lemma_text_end_bounds(s: Seq<char>, from: int)
    requires
        0 <= from <= s.len(),
    ensures
        from <= text_end(s, from) <= s.len(),
    decreases s.len() + 1 - from,
{
    if from < s.len() && s[from] != '\n' && !opens_at(s, from) {
        lemma_text_end_bounds(s, from + 1);
    }
}

/// The text at `from`, where there is at least one character of it.
pub open spec fn spec_raw_text(i: SpanView, from: int) -> Option<(SpanView, int)> {
    let e = text_end(i.fragment, from);
    if e > from {
        Some((i.slice(from, e), e))
    } else {
        None
    }
}

/// Reads the text at `from`.
pub fn raw_text(i: &Span, from: usize) -> (r: Option<(Span, usize)>)
    requires
        from <= i@.fragment.len(),
    ensures
        match r {
            Some((t, end)) => spec_raw_text(i@, from as int) == Some((t@, end as int)) && from
                < end <= i@.fragment.len(),
            None => spec_raw_text(i@, from as int) is None,
        },
{
    let mut e = from;
    while e < i.len() && i.char_at(e) != '\n' && !opens(i, e)
        invariant
            from <= e <= i@.fragment.len(),
            text_end(i@.fragment, from as int) == text_end(i@.fragment, e as int),
        decreases i@.fragment.len() - e,
    {
        e = e + 1;
    }
    if e > from {
        Some((i.slice(from, e), e))
    } else {
        None
    }
}

/// An expression put into text at `from`: `${`, the expression and `}`,
/// with whitespace allowed before each of the three.
pub open spec fn spec_interpolated(i: SpanView, from: int) -> Option<(ExpressionView, int)> {
    let s = i.fragment;
    let p = skip_ws(s, from);
    if opens_at(s, p) {
        match spec_expression(i, skip_ws(s, p + 2)) {
            Some((x, e)) => {
                let q = skip_ws(s, e);
                if is_char(s, q, '}') {
                    Some((x, q + 1))
                } else {
                    None
                }
            },
            None => None,
        }
    } else {
        None
    }
}

/// Reads an expression put into text at `from`.
pub fn interpolated_at(i: &Span, from: usize) -> (r: Option<(Expression, usize)>)
    requires
        from <= i@.fragment.len(),
    ensures
        match r {
            Some((x, end)) => spec_interpolated(i@, from as int) == Some((x@, end as int))
                && from < end <= i@.fragment.len(),
            None => spec_interpolated(i@, from as int) is None,
        },
{
    let p = scan(i.chars(), CharClass::Whitespace, from);
    if !opens(i, p) {
        return None;
    }
    let start = scan(i.chars(), CharClass::Whitespace, p + 2);
    match expression_at(i, start) {
        Some((x, e)) => {
            let q = scan(i.chars(), CharClass::Whitespace, e);
            if char_is(i, q, '}') {
                Some((x, q + 1))
            } else {
                None
            }
        },
        None => None,
    }
}

/// Reads an expression put into text at the start of `i`, and returns it
/// with what follows. Where there is none, the error gives no reason and is
/// found at `i`.
pub fn interpolated_expression(i: Span) -> (r: Result<(Span, Expression), ParserError<Span>>)
    ensures
        match r {
            Ok((rest, x)) => exists|end: int|
                spec_interpolated(i@, 0) == Some((x@, end)) && rest@ == i@.rest(end),
            Err(e) => spec_interpolated(i@, 0) is None && e@ == ParserErrorView::unhandled(i@),
        },
{
    match interpolated_at(&i, 0) {
        Some((x, end)) => Ok((i.rest(end), x)),
        None => Err(ParserError::unhandled(i)),
    }
}

/// The pieces of a text from `from` on: text up to the next `${`, and the
/// expressions put in, in their order, up to a line feed or the end. The
/// error is the place of a `${` that no expression and `}` follow.
pub open spec fn spec_tokens(i: SpanView, from: int) -> Result<(Seq<StringTokenView>, int), int>
    decreases i.fragment.len() + 1 - from,
{
    let s = i.fragment;
    if opens_at(s, from) {
        match spec_interpolated(i, from) {
            Some((x, e)) => {
                if ahead(s, from, e) {
                    match spec_tokens(i, e) {
                        Ok((more, end)) => Ok((seq![StringTokenView::Expression(x)] + more, end)),
                        Err(p) => Err(p),
                    }
                } else {
                    Err(from)
                }
            },
            None => Err(from),
        }
    } else {
        match spec_raw_text(i, from) {
            Some((t, e)) => {
                proof {
                    if 0 <= from <= s.len() {
                        lemma_text_end_bounds(s, from);
                    }
                }
                if ahead(s, from, e) {
                    match spec_tokens(i, e) {
                        Ok((more, end)) => Ok((seq![StringTokenView::Text(t)] + more, end)),
                        Err(p) => Err(p),
                    }
                } else {
                    Err(from)
                }
            },
            None => Ok((Seq::empty(), from)),
        }
    }
}

/// Reads the pieces of a text from `from` on.
pub fn tokens_at(i: &Span, from: usize) -> (r: Result<(Vec<StringToken>, usize), usize>)
    requires
        from <= i@.fragment.len(),
    ensures
        match r {
            Ok((tokens, end)) => spec_tokens(i@, from as int) == Ok::<
                (Seq<StringTokenView>, int),
                int,
            >((tokens_view(tokens@), end as int)) && from <= end <= i@.fragment.len(),
            Err(p) => spec_tokens(i@, from as int) == Err::<(Seq<StringTokenView>, int), int>(
                p as int,
            ) && from <= p <= i@.fragment.len(),
        },
    decreases i@.fragment.len() - from,
{
    let (token, e) = if opens(i, from) {
        match interpolated_at(i, from) {
            Some((x, e)) => (StringToken::Expression(x), e),
            None => {
                return Err(from);
            },
        }
    } else {
        match raw_text(i, from) {
            Some((t, e)) => (StringToken::Text(t), e),
            None => {
                let tokens: Vec<StringToken> = Vec::new();
                proof {
                    assert(tokens_view(tokens@) =~= Seq::empty());
                }
                return Ok((tokens, from));
            },
        }
    };
    match tokens_at(i, e) {
        Ok((mut more, end)) => {
            proof {
                assert(tokens_view(more@.insert(0, token)) =~= seq![token@] + tokens_view(more@));
            }
            more.insert(0, token);
            Ok((more, end))
        },
        Err(p) => Err(p),
    }
}

/// What `tokenised_string` and `piped_string` return for the pieces that
/// start at `from`: the pieces and where they end, or a syntax error found
/// at the `${` that nothing closes.
pub open spec fn tokens_outcome(i: SpanView, from: int) -> Result<
    (Seq<StringTokenView>, int),
    ParserErrorView,
> {
    match spec_tokens(i, from) {
        Ok(r) => Ok(r),
        Err(p) => Err(ParserErrorView::syntax_in(i.rest(p), i)),
    }
}

/// Reads the pieces of a text at the start of `i`, and returns them with
/// what follows.
pub fn tokenised_string(i: Span) -> (r: Result<(Span, Vec<StringToken>), ParserError<Span>>)
    ensures
        match r {
            Ok((rest, tokens)) => exists|end: int|
                tokens_outcome(i@, 0) == Ok::<(Seq<StringTokenView>, int), ParserErrorView>(
                    (tokens_view(tokens@), end),
                ) && rest@ == i@.rest(end),
            Err(e) => tokens_outcome(i@, 0) == Err::<
                (Seq<StringTokenView>, int),
                ParserErrorView,
            >(e@),
        },
{
    match tokens_at(&i, 0) {
        Ok((tokens, end)) => Ok((i.rest(end), tokens)),
        Err(p) => Err(ParserError::syntax_in(i.rest(p), i)),
    }
}

/// Whether the marker of a text line, `|` and a space, stands at `from`.
pub open spec fn piped_at(s: Seq<char>, from: int) -> bool {
    is_char(s, from, '|') && is_char(s, from + 1, ' ')
}

/// What `piped_string` returns: where the marker is missing, an error
/// that gives no reason, found at `i`; else what the pieces behind the
/// marker give.
pub open spec fn piped_outcome(i: SpanView) -> Result<
    (Seq<StringTokenView>, int),
    ParserErrorView,
> {
    if piped_at(i.fragment, 0) {
        tokens_outcome(i, 2)
    } else {
        Err(ParserErrorView::unhandled(i))
    }
}

/// Reads a text line at the start of `i`: the marker and the pieces of the
/// text. Returns the pieces with what follows.
pub fn piped_string(i: Span) -> (r: Result<(Span, Vec<StringToken>), ParserError<Span>>)
    ensures
        match r {
            Ok((rest, tokens)) => exists|end: int|
                piped_outcome(i@) == Ok::<(Seq<StringTokenView>, int), ParserErrorView>(
                    (tokens_view(tokens@), end),
                ) && rest@ == i@.rest(end),
            Err(e) => piped_outcome(i@) == Err::<(Seq<StringTokenView>, int), ParserErrorView>(
                e@,
            ),
        },
{
    if !(char_is(&i, 0, '|') && char_is(&i, 1, ' ')) {
        return Err(ParserError::unhandled(i));
    }
    match tokens_at(&i, 2) {
        Ok((tokens, end)) => Ok((i.rest(end), tokens)),
        Err(p) => Err(ParserError::syntax_in(i.rest(p), i)),
    }
}

} // verus!
