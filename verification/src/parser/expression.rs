//! The grammar of expressions.

use vstd::prelude::*;
use crate::parser::chars::{is_digit, lemma_run_end_bounds, run_end, scan, CharClass};
use crate::parser::error::{ParserError, ParserErrorView};
use crate::parser::models::{
    expressions_view,
    lemma_array_view,
    lemma_call_view,
    named_view,
    Expression,
    ExpressionView,
    FunctionCall,
};
use crate::parser::span::{Span, SpanView};
use crate::parser::variable::{
    char_is,
    is_char,
    literal_at,
    path_characters,
    path_end,
    path_prefix,
    relative_path_ends,
    spec_literal,
};

verus! {

/// Where the spaces, tabs, carriage returns and line feeds at `p` end.
pub open spec fn skip_ws(s: Seq<char>, p: int) -> int {
    run_end(s, CharClass::Whitespace, p)
}

/// Where the spaces and tabs at `p` end.
pub open spec fn skip_blank(s: Seq<char>, p: int) -> int {
    run_end(s, CharClass::Blank, p)
}

/// Whether `q` lies behind `p` and inside `s`.
pub open spec fn ahead(s: Seq<char>, p: int, q: int) -> bool {
    0 <= p < q <= s.len()
}

/// Where the identifier that starts at `from` ends: a run of ASCII letters,
/// digits and `_` that does not start with a digit.
pub open spec fn ident_end(s: Seq<char>, from: int) -> Option<int> {
    let e = run_end(s, CharClass::Ident, from);
    if e > from && !is_digit(s[from]) {
        Some(e)
    } else {
        None
    }
}

/// Finds where the identifier that starts at `from` ends.
pub fn identifier(i: &Span, from: usize) -> (r: Option<usize>)
    requires
        from <= i@.fragment.len(),
    ensures
        match r {
            Some(end) => ident_end(i@.fragment, from as int) == Some(end as int) && from < end
                <= i@.fragment.len(),
            None => ident_end(i@.fragment, from as int) is None,
        },
        i@.fragment.len() <= usize::MAX,
{
    let n = i.len();
    let e = scan(i.chars(), CharClass::Ident, from);
    if e > from && !CharClass::Digit.contains(i.char_at(from)) {
        Some(e)
    } else {
        None
    }
}

/// Whether an identifier starts at `from` and `(` follows it directly.
pub open spec fn call_follows(s: Seq<char>, from: int) -> bool {
    match ident_end(s, from) {
        Some(e) => is_char(s, e, '('),
        None => false,
    }
}

/// Where the dotted name ends whose first identifier starts at `from`. A
/// dot and an identifier belong to the name unless `(` follows that
/// identifier: then they are a call on what stands before the dot.
pub open spec fn chain_end(s: Seq<char>, from: int) -> int
    decreases s.len() + 1 - from,
{
    match ident_end(s, from) {
        Some(e) => {
            if is_char(s, e, '.') && ident_end(s, e + 1) is Some && !call_follows(s, e + 1) {
                chain_end(s, e + 1)
            } else {
                e
            }
        },
        None => from,
    }
}

/// Where the dotted name that starts at `from` ends, where there is one.
pub open spec fn reference_end(s: Seq<char>, from: int) -> Option<int> {
    if ident_end(s, from) is Some {
        Some(chain_end(s, from))
    } else {
        None
    }
}

/// Finds where the dotted name that starts at `from` ends.
pub fn reference(i: &Span, from: usize) -> (r: Option<usize>)
    requires
        from <= i@.fragment.len(),
    ensures
        match r {
            Some(end) => reference_end(i@.fragment, from as int) == Some(end as int) && from
                < end <= i@.fragment.len(),
            None => reference_end(i@.fragment, from as int) is None,
        },
{
    let mut end = match identifier(i, from) {
        Some(e) => e,
        None => {
            return None;
        },
    };
    let mut start = from;
    loop
        invariant
            from <= start < end <= i@.fragment.len() <= usize::MAX,
            ident_end(i@.fragment, start as int) == Some(end as int),
            chain_end(i@.fragment, from as int) == chain_end(i@.fragment, start as int),
        decreases i@.fragment.len() - start,
    {
        if !char_is(i, end, '.') {
            return Some(end);
        }
        match identifier(i, end + 1) {
            Some(e) => {
                if char_is(i, e, '(') {
                    return Some(end);
                }
                start = end + 1;
                end = e;
            },
            None => {
                return Some(end);
            },
        }
    }
}

/// Whether `s` holds a `*` at or after `from` and before `to`.
pub open spec fn has_star(s: Seq<char>, from: int, to: int) -> bool {
    exists|k: int| from <= k < to && #[trigger] s[k] == '*'
}

/// Looks for a `*` at or after `from` and before `to`.
pub fn find_star(i: &Span, from: usize, to: usize) -> (b: bool)
    requires
        from <= to <= i@.fragment.len(),
    ensures
        b == has_star(i@.fragment, from as int, to as int),
{
    let mut k = from;
    while k < to
        invariant
            from <= k <= to <= i@.fragment.len(),
            forall|j: int| from <= j < k ==> #[trigger] i@.fragment[j] != '*',
        decreases to - k,
    {
        if i.char_at(k) == '*' {
            return true;
        }
        k = k + 1;
    }
    false
}

/// A path with its prefix at `from`: a glob pattern where it holds a `*`,
/// else a relative path. The expression keeps the prefix.
pub open spec fn spec_path(i: SpanView, from: int) -> Option<(ExpressionView, int)> {
    match relative_path_ends(i.fragment, from) {
        Some((p, e)) => Some(
            (
                if has_star(i.fragment, p, e) {
                    ExpressionView::GlobPattern(i.slice(from, e))
                } else {
                    ExpressionView::RelativePath(i.slice(from, e))
                },
                e,
            ),
        ),
        None => None,
    }
}

/// A path without a prefix at `from` that holds a `*`: a glob pattern.
pub open spec fn spec_bare_glob(i: SpanView, from: int) -> Option<(ExpressionView, int)> {
    match path_end(i.fragment, from) {
        Some(e) => if has_star(i.fragment, from, e) {
            Some((ExpressionView::GlobPattern(i.slice(from, e)), e))
        } else {
            None
        },
        None => None,
    }
}

/// Reads a path at `from`, with a prefix or with a wildcard.
pub fn path_at(i: &Span, from: usize) -> (r: Option<(Expression, usize)>)
    requires
        from <= i@.fragment.len(),
    ensures
        match r {
            Some((e, end)) => from < end <= i@.fragment.len() && (match spec_path(
                i@,
                from as int,
            ) {
                Some(x) => x == (e@, end as int),
                None => spec_bare_glob(i@, from as int) == Some((e@, end as int)),
            }),
            None => spec_path(i@, from as int) is None && spec_bare_glob(i@, from as int) is None,
        },
{
    if let Some(p) = path_prefix(i, from) {
        if let Some(e) = path_characters(i, p) {
            let token = i.slice(from, e);
            if find_star(i, p, e) {
                return Some((Expression::GlobPattern(token), e));
            } else {
                return Some((Expression::RelativePath(token), e));
            }
        }
    }
    match path_characters(i, from) {
        Some(e) => {
            if find_star(i, from, e) {
                Some((Expression::GlobPattern(i.slice(from, e)), e))
            } else {
                None
            }
        },
        None => None,
    }
}

/// An expression at `from`: a primary expression and what is applied to
/// it behind it, calls and members.
pub open spec fn spec_expression(i: SpanView, from: int) -> Option<(ExpressionView, int)>
    decreases i.fragment.len() + 1 - from, 5int,
{
    match spec_primary(i, from) {
        Some((e, p)) => if ahead(i.fragment, from, p) {
            spec_postfix(i, e, p)
        } else {
            None
        },
        None => None,
    }
}

/// A primary expression at `from`. The forms are tried in this order: a
/// literal, a path with a prefix, a path with a wildcard, an array, a
/// dotted name.
pub open spec fn spec_primary(i: SpanView, from: int) -> Option<(ExpressionView, int)>
    decreases i.fragment.len() + 1 - from, 4int,
{
    let s = i.fragment;
    if let Some((l, e)) = spec_literal(i, from) {
        Some((ExpressionView::Literal(l), e))
    } else if let Some(r) = spec_path(i, from) {
        Some(r)
    } else if let Some(r) = spec_bare_glob(i, from) {
        Some(r)
    } else if is_char(s, from, '[') {
        proof {
            lemma_run_end_bounds(s, CharClass::Whitespace, from + 1);
        }
        match spec_items(i, skip_ws(s, from + 1)) {
            Some((items, e)) => Some((ExpressionView::Array(items), e)),
            None => None,
        }
    } else {
        match reference_end(s, from) {
            Some(e) => Some((ExpressionView::Reference(i.slice(from, e)), e)),
            None => None,
        }
    }
}

/// The items of an array from `p` on, behind `[` and whitespace, up to and
/// with the closing `]`.
pub open spec fn spec_items(i: SpanView, p: int) -> Option<(Seq<ExpressionView>, int)>
    decreases i.fragment.len() + 1 - p, 7int,
{
    if is_char(i.fragment, p, ']') {
        Some((Seq::empty(), p + 1))
    } else {
        spec_elements(i, p)
    }
}

/// One or more expressions from `p` on, with a comma between each two, and
/// the closing `]`. Whitespace may stand around a comma and before `]`.
pub open spec fn spec_elements(i: SpanView, p: int) -> Option<(Seq<ExpressionView>, int)>
    decreases i.fragment.len() + 1 - p, 6int,
{
    let s = i.fragment;
    match spec_expression(i, p) {
        Some((x, e)) => {
            if ahead(s, p, e) {
                let q = skip_ws(s, e);
                proof {
                    lemma_run_end_bounds(s, CharClass::Whitespace, e);
                }
                if is_char(s, q, ',') {
                    proof {
                        lemma_run_end_bounds(s, CharClass::Whitespace, q + 1);
                    }
                    match spec_elements(i, skip_ws(s, q + 1)) {
                        Some((more, end)) => Some((seq![x] + more, end)),
                        None => None,
                    }
                } else if is_char(s, q, ']') {
                    Some((seq![x], q + 1))
                } else {
                    None
                }
            } else {
                None
            }
        },
        None => None,
    }
}

/// What is applied to the expression `e`, which ends at `p`: the arguments
/// of a call in round brackets, or a dot and a member, which is a name or a
/// call of one. What results is applied to in turn.
pub open spec fn spec_postfix(i: SpanView, e: ExpressionView, p: int) -> Option<
    (ExpressionView, int),
>
    decreases i.fragment.len() + 1 - p, 3int,
{
    let s = i.fragment;
    if is_char(s, p, '(') {
        proof {
            lemma_run_end_bounds(s, CharClass::Whitespace, p + 1);
        }
        match spec_args(i, skip_ws(s, p + 1)) {
            Some((arguments, q)) => if ahead(s, p, q) {
                spec_postfix(i, ExpressionView::FunctionCall { ident: Box::new(e), arguments }, q)
            } else {
                None
            },
            None => None,
        }
    } else if is_char(s, p, '.') && ident_end(s, p + 1) is Some {
        let n = ident_end(s, p + 1)->0;
        let name = ExpressionView::Reference(i.slice(p + 1, n));
        proof {
            lemma_run_end_bounds(s, CharClass::Ident, p + 1);
        }
        if is_char(s, n, '(') {
            proof {
                lemma_run_end_bounds(s, CharClass::Whitespace, n + 1);
            }
            match spec_args(i, skip_ws(s, n + 1)) {
                Some((arguments, q)) => if ahead(s, p, q) {
                    spec_postfix(
                        i,
                        ExpressionView::Index(
                            Box::new(e),
                            Box::new(
                                ExpressionView::FunctionCall { ident: Box::new(name), arguments },
                            ),
                        ),
                        q,
                    )
                } else {
                    None
                },
                None => None,
            }
        } else {
            spec_postfix(i, ExpressionView::Index(Box::new(e), Box::new(name)), n)
        }
    } else {
        Some((e, p))
    }
}

/// A named argument at `p`: an identifier, `=` with whitespace allowed
/// before it and spaces and tabs behind it, and an expression.
pub open spec fn spec_named(i: SpanView, p: int) -> Option<((SpanView, ExpressionView), int)>
    decreases i.fragment.len() + 1 - p, 6int,
{
    let s = i.fragment;
    match ident_end(s, p) {
        Some(n) => {
            proof {
                lemma_run_end_bounds(s, CharClass::Ident, p);
                lemma_run_end_bounds(s, CharClass::Whitespace, n);
            }
            let q = skip_ws(s, n);
            if is_char(s, q, '=') {
                proof {
                    lemma_run_end_bounds(s, CharClass::Blank, q + 1);
                }
                match spec_expression(i, skip_blank(s, q + 1)) {
                    Some((x, e)) => Some(((i.slice(p, n), x), e)),
                    None => None,
                }
            } else {
                None
            }
        },
        None => None,
    }
}

/// The arguments of a call from `p` on, behind `(` and whitespace, up to
/// and with the closing `)`. Whitespace, a comma, or both stand between
/// two arguments.
pub open spec fn spec_args(i: SpanView, p: int) -> Option<(Seq<(SpanView, ExpressionView)>, int)>
    decreases i.fragment.len() + 1 - p, 7int,
{
    let s = i.fragment;
    if is_char(s, p, ')') {
        Some((Seq::empty(), p + 1))
    } else {
        match spec_named(i, p) {
            Some((a, e)) => {
                if ahead(s, p, e) {
                    proof {
                        lemma_separator_end(s, e);
                    }
                    match spec_args(i, separator_end(s, e)) {
                        Some((more, end)) => Some((seq![a] + more, end)),
                        None => None,
                    }
                } else {
                    None
                }
            },
            None => None,
        }
    }
}

/// Where what separates two arguments ends: whitespace, which a comma and
/// further whitespace may follow.
pub open spec fn separator_end(s: Seq<char>, e: int) -> int {
    let t = skip_ws(s, e);
    if is_char(s, t, ',') {
        skip_ws(s, t + 1)
    } else {
        t
    }
}

/// What separates two arguments ends at or behind where it starts, and
/// inside the text.
pub proof fn lemma_separator_end(s: Seq<char>, e: int)
    requires
        0 <= e <= s.len(),
    ensures
        e <= separator_end(s, e) <= s.len(),
{
    lemma_run_end_bounds(s, CharClass::Whitespace, e);
    let t = skip_ws(s, e);
    if is_char(s, t, ',') {
        lemma_run_end_bounds(s, CharClass::Whitespace, t + 1);
    }
}

/// Reads an expression at `from`.
pub fn expression_at(i: &Span, from: usize) -> (r: Option<(Expression, usize)>)
    requires
        from <= i@.fragment.len(),
    ensures
        match r {
            Some((e, end)) => spec_expression(i@, from as int) == Some((e@, end as int)) && from
                < end <= i@.fragment.len(),
            None => spec_expression(i@, from as int) is None,
        },
    decreases i@.fragment.len() + 1 - from, 5int,
{
    match primary_at(i, from) {
        Some((e, p)) => postfix_at(i, e, p),
        None => None,
    }
}

fn primary_at(i: &Span, from: usize) -> (r: Option<(Expression, usize)>)
    requires
        from <= i@.fragment.len(),
    ensures
        match r {
            Some((e, end)) => spec_primary(i@, from as int) == Some((e@, end as int)) && from
                < end <= i@.fragment.len(),
            None => spec_primary(i@, from as int) is None,
        },
    decreases i@.fragment.len() + 1 - from, 4int,
{
    if let Some((l, e)) = literal_at(i, from) {
        return Some((Expression::Literal(l), e));
    }
    if let Some(r) = path_at(i, from) {
        return Some(r);
    }
    if char_is(i, from, '[') {
        let p = scan(i.chars(), CharClass::Whitespace, from + 1);
        return match items_at(i, p) {
            Some((items, e)) => {
                proof {
                    lemma_array_view(items);
                }
                Some((Expression::Array(items), e))
            },
            None => None,
        };
    }
    match reference(i, from) {
        Some(e) => Some((Expression::Reference(i.slice(from, e)), e)),
        None => None,
    }
}

fn items_at(i: &Span, p: usize) -> (r: Option<(Vec<Expression>, usize)>)
    requires
        p <= i@.fragment.len(),
    ensures
        match r {
            Some((items, end)) => spec_items(i@, p as int) == Some(
                (expressions_view(items@), end as int),
            ) && p < end <= i@.fragment.len(),
            None => spec_items(i@, p as int) is None,
        },
    decreases i@.fragment.len() + 1 - p, 7int,
{
    if char_is(i, p, ']') {
        let items: Vec<Expression> = Vec::new();
        proof {
            assert(expressions_view(items@) =~= Seq::empty());
        }
        Some((items, p + 1))
    } else {
        elements_at(i, p)
    }
}

fn elements_at(i: &Span, p: usize) -> (r: Option<(Vec<Expression>, usize)>)
    requires
        p <= i@.fragment.len(),
    ensures
        match r {
            Some((items, end)) => spec_elements(i@, p as int) == Some(
                (expressions_view(items@), end as int),
            ) && p < end <= i@.fragment.len(),
            None => spec_elements(i@, p as int) is None,
        },
    decreases i@.fragment.len() + 1 - p, 6int,
{
    let (x, e) = match expression_at(i, p) {
        Some(r) => r,
        None => {
            return None;
        },
    };
    let q = scan(i.chars(), CharClass::Whitespace, e);
    if char_is(i, q, ',') {
        let next = scan(i.chars(), CharClass::Whitespace, q + 1);
        match elements_at(i, next) {
            Some((mut more, end)) => {
                proof {
                    assert(expressions_view(more@.insert(0, x)) =~= seq![x@] + expressions_view(
                        more@,
                    ));
                }
                more.insert(0, x);
                Some((more, end))
            },
            None => None,
        }
    } else if char_is(i, q, ']') {
        let mut items: Vec<Expression> = Vec::new();
        proof {
            assert(expressions_view(items@.push(x)) =~= seq![x@]);
        }
        items.push(x);
        Some((items, q + 1))
    } else {
        None
    }
}

fn postfix_at(i: &Span, e: Expression, p: usize) -> (r: Option<(Expression, usize)>)
    requires
        p <= i@.fragment.len(),
    ensures
        match r {
            Some((x, end)) => spec_postfix(i@, e@, p as int) == Some((x@, end as int)) && p
                <= end <= i@.fragment.len(),
            None => spec_postfix(i@, e@, p as int) is None,
        },
    decreases i@.fragment.len() + 1 - p, 3int,
{
    if char_is(i, p, '(') {
        let a = scan(i.chars(), CharClass::Whitespace, p + 1);
        match args_at(i, a) {
            Some((arguments, q)) => {
                let f = FunctionCall { ident: Box::new(e), arguments };
                proof {
                    lemma_call_view(f);
                }
                postfix_at(i, Expression::FunctionCall(f), q)
            },
            None => None,
        }
    } else if char_is(i, p, '.') {
        match identifier(i, p + 1) {
            Some(n) => {
                let name = Expression::Reference(i.slice(p + 1, n));
                if char_is(i, n, '(') {
                    let a = scan(i.chars(), CharClass::Whitespace, n + 1);
                    match args_at(i, a) {
                        Some((arguments, q)) => {
                            let f = FunctionCall { ident: Box::new(name), arguments };
                            proof {
                                lemma_call_view(f);
                            }
                            let member = Expression::Index(
                                Box::new(e),
                                Box::new(Expression::FunctionCall(f)),
                            );
                            assert(member@ == ExpressionView::Index(
                                Box::new(e@),
                                Box::new(Expression::FunctionCall(f)@),
                            ));
                            postfix_at(i, member, q)
                        },
                        None => None,
                    }
                } else {
                    let member = Expression::Index(Box::new(e), Box::new(name));
                    assert(member@ == ExpressionView::Index(Box::new(e@), Box::new(name@)));
                    postfix_at(i, member, n)
                }
            },
            None => Some((e, p)),
        }
    } else {
        Some((e, p))
    }
}

/// Reads a named argument at `p`.
pub fn named_at(i: &Span, p: usize) -> (r: Option<((Span, Expression), usize)>)
    requires
        p <= i@.fragment.len(),
    ensures
        match r {
            Some((a, end)) => spec_named(i@, p as int) == Some(((a.0@, a.1@), end as int)) && p
                < end <= i@.fragment.len(),
            None => spec_named(i@, p as int) is None,
        },
    decreases i@.fragment.len() + 1 - p, 6int,
{
    let n = match identifier(i, p) {
        Some(n) => n,
        None => {
            return None;
        },
    };
    let q = scan(i.chars(), CharClass::Whitespace, n);
    if !char_is(i, q, '=') {
        return None;
    }
    let start = scan(i.chars(), CharClass::Blank, q + 1);
    match expression_at(i, start) {
        Some((x, e)) => Some(((i.slice(p, n), x), e)),
        None => None,
    }
}

fn args_at(i: &Span, p: usize) -> (r: Option<(Vec<(Span, Expression)>, usize)>)
    requires
        p <= i@.fragment.len(),
    ensures
        match r {
            Some((items, end)) => spec_args(i@, p as int) == Some(
                (named_view(items@), end as int),
            ) && p < end <= i@.fragment.len(),
            None => spec_args(i@, p as int) is None,
        },
    decreases i@.fragment.len() + 1 - p, 7int,
{
    if char_is(i, p, ')') {
        let items: Vec<(Span, Expression)> = Vec::new();
        proof {
            assert(named_view(items@) =~= Seq::empty());
        }
        return Some((items, p + 1));
    }
    let (a, e) = match named_at(i, p) {
        Some(r) => r,
        None => {
            return None;
        },
    };
    let next = separator(i, e);
    match args_at(i, next) {
        Some((mut more, end)) => {
            proof {
                assert(named_view(more@.insert(0, a)) =~= seq![(a.0@, a.1@)] + named_view(more@));
            }
            more.insert(0, a);
            Some((more, end))
        },
        None => None,
    }
}

/// Skips what separates two arguments.
pub fn separator(i: &Span, e: usize) -> (r: usize)
    requires
        e <= i@.fragment.len(),
    ensures
        r == separator_end(i@.fragment, e as int),
        e <= r <= i@.fragment.len(),
{
    let t = scan(i.chars(), CharClass::Whitespace, e);
    if char_is(i, t, ',') {
        scan(i.chars(), CharClass::Whitespace, t + 1)
    } else {
        t
    }
}

/// Reads an expression at the start of `i`, and returns it with what
/// follows. Where there is none, the error is a syntax error found at `i`.
pub fn expression(i: Span) -> (r: Result<(Span, Expression), ParserError<Span>>)
    ensures
        match r {
            Ok((rest, e)) => exists|end: int|
                spec_expression(i@, 0) == Some((e@, end)) && rest@ == i@.rest(end),
            Err(e) => spec_expression(i@, 0) is None && e@ == ParserErrorView::syntax(i@),
        },
{
    match expression_at(&i, 0) {
        Some((e, end)) => Ok((i.rest(end), e)),
        None => Err(ParserError::syntax(i)),
    }
}

} // verus!
