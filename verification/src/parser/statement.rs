//! The grammar of statements: one to a line.

use vstd::prelude::*;
use crate::parser::chars::{scan, CharClass};
use crate::parser::element::{element_at, spec_element};
use crate::parser::error::{ParserError, ParserErrorView};
use crate::parser::expression::{
    expression_at,
    ident_end,
    identifier,
    skip_blank,
    skip_ws,
    spec_expression,
};
use crate::parser::models::{Statement, StatementView};
use crate::parser::span::{Span, SpanView};
use crate::parser::text::{piped_at, spec_tokens, tokens_at};
use crate::parser::variable::{char_is, is_char};

verus! {

/// A comment at `from`: `--`, and as its text the rest of `i`.
pub open spec fn spec_comment(i: SpanView, from: int) -> Option<(StatementView, int)> {
    let s = i.fragment;
    if is_char(s, from, '-') && is_char(s, from + 1, '-') {
        Some((StatementView::Comment(i.slice(from + 2, s.len() as int)), s.len() as int))
    } else {
        None
    }
}

/// A loop at `from`: `for`, the name of the variable, `in` and an
/// expression, with spaces or tabs between each two.
pub open spec fn spec_for(i: SpanView, from: int) -> Option<(StatementView, int)> {
    let s = i.fragment;
    let b = skip_blank(s, from + 3);
    if is_char(s, from, 'f') && is_char(s, from + 1, 'o') && is_char(s, from + 2, 'r') && b > from
        + 3 {
        match ident_end(s, b) {
            Some(n) => {
                let c = skip_blank(s, n);
                let d = skip_blank(s, c + 2);
                if c > n && is_char(s, c, 'i') && is_char(s, c + 1, 'n') && d > c + 2 {
                    match spec_expression(i, d) {
                        Some((x, e)) => Some(
                            (StatementView::ForLoop { ident: i.slice(b, n), expr: x }, e),
                        ),
                        None => None,
                    }
                } else {
                    None
                }
            },
            None => None,
        }
    } else {
        None
    }
}

/// A binding at `from`: a name, `=` and an expression, with whitespace
/// allowed around the `=`.
pub open spec fn spec_binding(i: SpanView, from: int) -> Option<(StatementView, int)> {
    let s = i.fragment;
    match ident_end(s, from) {
        Some(n) => {
            let q = skip_ws(s, n);
            if is_char(s, q, '=') {
                match spec_expression(i, skip_ws(s, q + 1)) {
                    Some((x, e)) => Some((StatementView::Binding(i.slice(from, n), x), e)),
                    None => None,
                }
            } else {
                None
            }
        },
        None => None,
    }
}

/// A text line at `from`: the marker and the pieces of the text.
pub open spec fn spec_text(i: SpanView, from: int) -> Option<(StatementView, int)> {
    if piped_at(i.fragment, from) {
        match spec_tokens(i, from + 2) {
            Ok((tokens, e)) => Some((StatementView::Text(tokens), e)),
            Err(_) => None,
        }
    } else {
        None
    }
}

/// A statement at `from`. The forms are tried in this order, and the first
/// that is there is taken: an element, a text line, a comment, a loop, a
/// binding, an expression.
pub open spec fn spec_form(i: SpanView, from: int) -> Option<(StatementView, int)> {
    if let Some((x, e)) = spec_element(i, from) {
        Some((StatementView::Element(x), e))
    } else if let Some(r) = spec_text(i, from) {
        Some(r)
    } else if let Some(r) = spec_comment(i, from) {
        Some(r)
    } else if let Some(r) = spec_for(i, from) {
        Some(r)
    } else if let Some(r) = spec_binding(i, from) {
        Some(r)
    } else {
        match spec_expression(i, from) {
            Some((x, e)) => Some((StatementView::Expression(x), e)),
            None => None,
        }
    }
}

/// The statement that `i` holds: a statement at its start, with nothing
/// but whitespace behind it.
pub open spec fn spec_statement(i: SpanView) -> Option<StatementView> {
    match spec_form(i, 0) {
        Some((x, e)) => if skip_ws(i.fragment, e) == i.fragment.len() {
            Some(x)
        } else {
            None
        },
        None => None,
    }
}

fn comment_at(i: &Span, from: usize) -> (r: Option<(Statement, usize)>)
    requires
        from <= i@.fragment.len(),
    ensures
        match r {
            Some((x, end)) => spec_comment(i@, from as int) == Some((x@, end as int)) && from
                < end <= i@.fragment.len(),
            None => spec_comment(i@, from as int) is None,
        },
{
    if char_is(i, from, '-') && char_is(i, from + 1, '-') {
        let n = i.len();
        Some((Statement::Comment(i.slice(from + 2, n)), n))
    } else {
        None
    }
}

fn for_at(i: &Span, from: usize) -> (r: Option<(Statement, usize)>)
    requires
        from <= i@.fragment.len(),
    ensures
        match r {
            Some((x, end)) => spec_for(i@, from as int) == Some((x@, end as int)) && from < end
                <= i@.fragment.len(),
            None => spec_for(i@, from as int) is None,
        },
{
    if !(char_is(i, from, 'f') && char_is(i, from + 1, 'o') && char_is(i, from + 2, 'r')) {
        return None;
    }
    let b = scan(i.chars(), CharClass::Blank, from + 3);
    if b <= from + 3 {
        return None;
    }
    let n = match identifier(i, b) {
        Some(n) => n,
        None => {
            return None;
        },
    };
    let c = scan(i.chars(), CharClass::Blank, n);
    if !(c > n && char_is(i, c, 'i') && char_is(i, c + 1, 'n')) {
        return None;
    }
    let d = scan(i.chars(), CharClass::Blank, c + 2);
    if d <= c + 2 {
        return None;
    }
    match expression_at(i, d) {
        Some((x, e)) => Some((Statement::ForLoop { ident: i.slice(b, n), expr: x }, e)),
        None => None,
    }
}

fn binding_at(i: &Span, from: usize) -> (r: Option<(Statement, usize)>)
    requires
        from <= i@.fragment.len(),
    ensures
        match r {
            Some((x, end)) => spec_binding(i@, from as int) == Some((x@, end as int)) && from
                < end <= i@.fragment.len(),
            None => spec_binding(i@, from as int) is None,
        },
{
    let n = match identifier(i, from) {
        Some(n) => n,
        None => {
            return None;
        },
    };
    let q = scan(i.chars(), CharClass::Whitespace, n);
    if !char_is(i, q, '=') {
        return None;
    }
    let start = scan(i.chars(), CharClass::Whitespace, q + 1);
    match expression_at(i, start) {
        Some((x, e)) => Some((Statement::Binding(i.slice(from, n), x), e)),
        None => None,
    }
}

fn text_at(i: &Span, from: usize) -> (r: Option<(Statement, usize)>)
    requires
        from <= i@.fragment.len(),
    ensures
        match r {
            Some((x, end)) => spec_text(i@, from as int) == Some((x@, end as int)) && from < end
                <= i@.fragment.len(),
            None => spec_text(i@, from as int) is None,
        },
{
    if !(char_is(i, from, '|') && char_is(i, from + 1, ' ')) {
        return None;
    }
    match tokens_at(i, from + 2) {
        Ok((tokens, e)) => Some((Statement::Text(tokens), e)),
        Err(_) => None,
    }
}

/// Reads a statement at `from`.
pub fn form_at(i: &Span, from: usize) -> (r: Option<(Statement, usize)>)
    requires
        from <= i@.fragment.len(),
    ensures
        match r {
            Some((x, end)) => spec_form(i@, from as int) == Some((x@, end as int)) && from < end
                <= i@.fragment.len(),
            None => spec_form(i@, from as int) is None,
        },
{
    if let Some((x, e)) = element_at(i, from) {
        return Some((Statement::Element(x), e));
    }
    if let Some(r) = text_at(i, from) {
        return Some(r);
    }
    if let Some(r) = comment_at(i, from) {
        return Some(r);
    }
    if let Some(r) = for_at(i, from) {
        return Some(r);
    }
    if let Some(r) = binding_at(i, from) {
        return Some(r);
    }
    match expression_at(i, from) {
        Some((x, e)) => Some((Statement::Expression(x), e)),
        None => None,
    }
}

/// Reads the statement that `i` holds, and returns it with what is left of
/// `i`, which is nothing. Where `i` holds no statement, or more than
/// whitespace follows it, the error is a syntax error found at `i`.
pub fn statement(i: Span) -> (r: Result<(Span, Statement), ParserError<Span>>)
    ensures
        match r {
            Ok((rest, x)) => spec_statement(i@) == Some(x@) && rest@ == i@.rest(
                i@.fragment.len() as int,
            ),
            Err(e) => spec_statement(i@) is None && e@ == ParserErrorView::syntax(i@),
        },
{
    match form_at(&i, 0) {
        Some((x, e)) => {
            let end = scan(i.chars(), CharClass::Whitespace, e);
            if end == i.len() {
                Ok((i.rest(end), x))
            } else {
                Err(ParserError::syntax(i))
            }
        },
        None => Err(ParserError::syntax(i)),
    }
}

} // verus!
