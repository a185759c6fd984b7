//! The grammar of element lines: `%`, a tag name, and attributes.

use vstd::prelude::*;
use crate::parser::chars::{run_end, scan, CharClass};
use crate::parser::error::{ParserError, ParserErrorView};
use crate::parser::expression::{ahead, expression_at, skip_blank, skip_ws, spec_expression};
use crate::parser::models::{named_view, Element, ElementView, Expression, ExpressionView};
use crate::parser::span::{Span, SpanView};
use crate::parser::variable::{char_is, is_char};

verus! {

/// What looking for an optional item gives: the item and where it ends, no
/// item, or the start of one that does not go on as it must.
pub enum Attempt<T> {
    Done(T, int),
    Absent,
    Broken,
}

/// An attribute at `p`: a name of ASCII letters, `=` with whitespace
/// allowed before it and spaces and tabs behind it, and an expression. Once
/// the `=` is read the expression must follow.
pub open spec fn spec_attribute(i: SpanView, p: int) -> Attempt<(SpanView, ExpressionView)> {
    let s = i.fragment;
    let n = run_end(s, CharClass::Alpha, p);
    let q = skip_ws(s, n);
    if n > p && is_char(s, q, '=') {
        match spec_expression(i, skip_blank(s, q + 1)) {
            Some((x, e)) => Attempt::Done((i.slice(p, n), x), e),
            None => Attempt::Broken,
        }
    } else {
        Attempt::Absent
    }
}

/// Reads an attribute at `p`. The outer `None` says that none starts there,
/// the inner one that one starts and breaks off.
pub fn attribute_at(i: &Span, p: usize) -> (r: Option<Option<((Span, Expression), usize)>>)
    requires
        p <= i@.fragment.len(),
    ensures
        match r {
            Some(Some((a, end))) => spec_attribute(i@, p as int) == Attempt::Done(
                (a.0@, a.1@),
                end as int,
            ) && p < end <= i@.fragment.len(),
            Some(None) => spec_attribute(i@, p as int) == Attempt::<
                (SpanView, ExpressionView),
            >::Broken,
            None => spec_attribute(i@, p as int) == Attempt::<(SpanView, ExpressionView)>::Absent,
        },
{
    let n = scan(i.chars(), CharClass::Alpha, p);
    let q = scan(i.chars(), CharClass::Whitespace, n);
    if !(n > p && char_is(i, q, '=')) {
        return None;
    }
    let start = scan(i.chars(), CharClass::Blank, q + 1);
    match expression_at(i, start) {
        Some((x, e)) => Some(Some(((i.slice(p, n), x), e))),
        None => Some(None),
    }
}

/// What `attribute_assignment` reports where it fails: no reason where no
/// attribute starts, a syntax error where one breaks off; found at `i`.
pub open spec fn attribute_error(i: SpanView) -> ParserErrorView {
    if spec_attribute(i, 0) is Broken {
        ParserErrorView::syntax(i)
    } else {
        ParserErrorView::unhandled(i)
    }
}

/// Reads an attribute at the start of `i`, and returns its name and value
/// with what follows.
pub fn attribute_assignment(i: Span) -> (r: Result<(Span, (Span, Expression)), ParserError<Span>>)
    ensures
        match r {
            Ok((rest, a)) => exists|end: int|
                spec_attribute(i@, 0) == Attempt::Done((a.0@, a.1@), end) && rest@ == i@.rest(
                    end,
                ),
            Err(e) => !(spec_attribute(i@, 0) is Done) && e@ == attribute_error(i@),
        },
{
    match attribute_at(&i, 0) {
        Some(Some((a, end))) => Ok((i.rest(end), a)),
        Some(None) => Err(ParserError::syntax(i)),
        None => Err(ParserError::unhandled(i)),
    }
}

/// The attributes from `p` on, each behind spaces and tabs, for as long as
/// one starts. Where one breaks off there is no result.
pub open spec fn spec_attributes(i: SpanView, p: int) -> Option<
    (Seq<(SpanView, ExpressionView)>, int),
>
    decreases i.fragment.len() + 1 - p,
{
    let s = i.fragment;
    match spec_attribute(i, skip_blank(s, p)) {
        Attempt::Done(a, e) => {
            if ahead(s, p, e) {
                match spec_attributes(i, e) {
                    Some((more, end)) => Some((seq![a] + more, end)),
                    None => None,
                }
            } else {
                None
            }
        },
        Attempt::Absent => Some((Seq::empty(), p)),
        Attempt::Broken => None,
    }
}

fn attributes_at(i: &Span, p: usize) -> (r: Option<(Vec<(Span, Expression)>, usize)>)
    requires
        p <= i@.fragment.len(),
    ensures
        match r {
            Some((items, end)) => spec_attributes(i@, p as int) == Some(
                (named_view(items@), end as int),
            ) && p <= end <= i@.fragment.len(),
            None => spec_attributes(i@, p as int) is None,
        },
    decreases i@.fragment.len() - p,
{
    let q = scan(i.chars(), CharClass::Blank, p);
    match attribute_at(i, q) {
        Some(Some((a, e))) => match attributes_at(i, e) {
            Some((mut more, end)) => {
                proof {
                    assert(named_view(more@.insert(0, a)) =~= seq![(a.0@, a.1@)] + named_view(
                        more@,
                    ));
                }
                more.insert(0, a);
                Some((more, end))
            },
            None => None,
        },
        Some(None) => None,
        None => {
            let items: Vec<(Span, Expression)> = Vec::new();
            proof {
                assert(named_view(items@) =~= Seq::empty());
            }
            Some((items, p))
        },
    }
}

/// An element at `from`: `%`, a tag name of ASCII letters and digits, and
/// its attributes.
pub open spec fn spec_element(i: SpanView, from: int) -> Option<(ElementView, int)> {
    let s = i.fragment;
    let n = run_end(s, CharClass::Alphanumeric, from + 1);
    if is_char(s, from, '%') && n > from + 1 {
        match spec_attributes(i, n) {
            Some((attributes, e)) => Some(
                (ElementView { ident: i.slice(from + 1, n), attributes }, e),
            ),
            None => None,
        }
    } else {
        None
    }
}

/// Reads an element at `from`.
pub fn element_at(i: &Span, from: usize) -> (r: Option<(Element, usize)>)
    requires
        from <= i@.fragment.len(),
    ensures
        match r {
            Some((x, end)) => spec_element(i@, from as int) == Some((x@, end as int)) && from
                < end <= i@.fragment.len(),
            None => spec_element(i@, from as int) is None,
        },
{
    if !char_is(i, from, '%') {
        return None;
    }
    let n = scan(i.chars(), CharClass::Alphanumeric, from + 1);
    if n <= from + 1 {
        return None;
    }
    match attributes_at(i, n) {
        Some((attributes, e)) => Some((Element { ident: i.slice(from + 1, n), attributes }, e)),
        None => None,
    }
}

/// Reads an element at the start of `i`, and returns it with what follows.
/// Where there is none, the error is a syntax error found at `i`.
pub fn element(i: Span) -> (r: Result<(Span, Element), ParserError<Span>>)
    ensures
        match r {
            Ok((rest, x)) => exists|end: int|
                spec_element(i@, 0) == Some((x@, end)) && rest@ == i@.rest(end),
            Err(e) => spec_element(i@, 0) is None && e@ == ParserErrorView::syntax(i@),
        },
{
    match element_at(&i, 0) {
        Some((x, end)) => Ok((i.rest(end), x)),
        None => Err(ParserError::syntax(i)),
    }
}

} // verus!
