//! Putting the text of variables into text, where `${ name }` stands.

use vstd::prelude::*;
use vstd::string::StringExecFns;
use crate::parser::chars::{from_chars, run_end, scan, to_chars, CharClass};
use crate::parser::expression::skip_ws;
use crate::parser::text::opens_at;
use crate::parser::variable::is_char;
use crate::variable::{
    get_required_variable,
    locals_view,
    required,
    stringify_variable,
    text_of_variable,
    AstryxError,
    AstryxErrorView,
    Variable,
    VariableView,
};

verus! {

/// A reference at `from`: `${`, a name and `}`, with whitespace allowed
/// before each of the three. The name is a run of ASCII letters, digits,
/// `-`, `_` and dots. Gives where the name starts and ends, and where what
/// follows the `}` starts.
pub open spec fn reference_at(s: Seq<char>, from: int) -> Option<(int, int, int)> {
    let p = skip_ws(s, from);
    let q = skip_ws(s, p + 2);
    let n = run_end(s, CharClass::Symbolic, q);
    let r = skip_ws(s, n);
    if opens_at(s, p) && n > q && is_char(s, r, '}') {
        Some((q, n, r + 1))
    } else {
        None
    }
}

/// Where the next `${` at or after `from` stands.
pub open spec fn next_open(s: Seq<char>, from: int) -> Option<int>
    decreases s.len() - from,
{
    if 0 <= from < s.len() {
        if opens_at(s, from) {
            Some(from)
        } else {
            next_open(s, from + 1)
        }
    } else {
        None
    }
}

fn holds(v: &Vec<char>, p: usize, c: char) -> (b: bool)
    ensures
        b == is_char(v@, p as int, c),
{
    p < v.len() && v[p] == c
}

fn opens(v: &Vec<char>, p: usize) -> (b: bool)
    ensures
        b == opens_at(v@, p as int),
{
    p < v.len() && v[p] == '$' && holds(v, p + 1, '{')
}

/// Reads a reference at `from`.
pub fn find_reference(v: &Vec<char>, from: usize) -> (r: Option<(usize, usize, usize)>)
    requires
        from <= v.len(),
    ensures
        match r {
            Some((q, n, e)) => reference_at(v@, from as int) == Some(
                (q as int, n as int, e as int),
            ) && from <= q < n < e <= v.len(),
            None => reference_at(v@, from as int) is None,
        },
{
    let p = scan(v, CharClass::Whitespace, from);
    if !opens(v, p) {
        return None;
    }
    let q = scan(v, CharClass::Whitespace, p + 2);
    let n = scan(v, CharClass::Symbolic, q);
    let r = scan(v, CharClass::Whitespace, n);
    if n > q && holds(v, r, '}') {
        Some((q, n, r + 1))
    } else {
        None
    }
}

/// Finds the next `${` at or after `from`.
pub fn find_open(v: &Vec<char>, from: usize) -> (r: Option<usize>)
    requires
        from <= v.len(),
    ensures
        match r {
            Some(o) => next_open(v@, from as int) == Some(o as int) && from <= o < v.len(),
            None => next_open(v@, from as int) is None,
        },
{
    let mut k = from;
    while k < v.len()
        invariant
            from <= k <= v.len(),
            next_open(v@, from as int) == next_open(v@, k as int),
        decreases v.len() - k,
    {
        if opens(v, k) {
            return Some(k);
        }
        k = k + 1;
    }
    None
}

/// Reads a reference at the start of `i`, and returns what follows it and
/// the name.
pub fn interpolate_reference(i: &str) -> (r: Option<(String, String)>)
    ensures
        match r {
            Some((rest, name)) => exists|q: int, n: int, e: int|
                reference_at(i@, 0) == Some((q, n, e)) && name@ == i@.subrange(q, n) && rest@
                    == i@.subrange(e, i@.len() as int),
            None => reference_at(i@, 0) is None,
        },
{
    let v = to_chars(i);
    match find_reference(&v, 0) {
        Some((q, n, e)) => Some((from_chars(&v, e, v.len()), from_chars(&v, q, n))),
        None => None,
    }
}

/// Reads the text at the start of `i` up to the next `${`, which must be
/// there, and returns what follows it and the text.
pub fn interpolate_text(i: &str) -> (r: Option<(String, String)>)
    ensures
        match r {
            Some((rest, text)) => exists|o: int|
                next_open(i@, 0) == Some(o) && text@ == i@.subrange(0, o) && rest@ == i@.subrange(
                    o,
                    i@.len() as int,
                ),
            None => next_open(i@, 0) is None,
        },
{
    let v = to_chars(i);
    match find_open(&v, 0) {
        Some(o) => Some((from_chars(&v, o, v.len()), from_chars(&v, 0, o))),
        None => None,
    }
}

/// The text `done` and behind it what `s` gives from `from` on: each
/// reference is replaced by the text of the variable it names, and all
/// other text is kept as it stands, in its place. A `${` that starts no
/// reference is an error.
pub open spec fn interpolated(
    s: Seq<char>,
    from: int,
    locals: Seq<(Seq<char>, VariableView)>,
    done: Seq<char>,
) -> Result<Seq<char>, AstryxErrorView>
    decreases s.len() - from,
{
    match reference_at(s, from) {
        Some((q, n, e)) => {
            if from < e <= s.len() {
                match required(s.subrange(q, n), locals) {
                    Ok(v) => match text_of_variable(v, locals, locals.len()) {
                        Ok(t) => interpolated(s, e, locals, done + t),
                        Err(e) => Err(e),
                    },
                    Err(e) => Err(e),
                }
            } else {
                Err(AstryxErrorView::Malformed)
            }
        },
        None => match next_open(s, from) {
            Some(o) => {
                if from < o <= s.len() {
                    interpolated(s, o, locals, done + s.subrange(from, o))
                } else {
                    Err(AstryxErrorView::Malformed)
                }
            },
            None => Ok(done + s.subrange(from, s.len() as int)),
        },
    }
}

/// Puts the text of the variables `locals` into `i`, where it refers to
/// them.
pub fn interpolate(i: &str, locals: &Vec<(String, Variable)>) -> (r: Result<String, AstryxError>)
    ensures
        match r {
            Ok(s) => interpolated(i@, 0, locals_view(locals@), Seq::empty()) == Ok::<
                Seq<char>,
                AstryxErrorView,
            >(s@),
            Err(e) => interpolated(i@, 0, locals_view(locals@), Seq::empty()) == Err::<
                Seq<char>,
                AstryxErrorView,
            >(e@),
        },
{
    let v = to_chars(i);
    let mut output_buffer = String::new();
    let mut at: usize = 0;
    let ghost goal = interpolated(i@, 0, locals_view(locals@), Seq::empty());
    loop
        invariant
            at <= v.len(),
            v@ == i@,
            goal == interpolated(i@, 0, locals_view(locals@), Seq::empty()),
            goal == interpolated(v@, at as int, locals_view(locals@), output_buffer@),
        decreases v.len() - at,
    {
        match find_reference(&v, at) {
            Some((q, n, e)) => {
                let name = from_chars(&v, q, n);
                let variable = match get_required_variable(name.as_str(), locals) {
                    Ok(v) => v,
                    Err(e) => {
                        return Err(e);
                    },
                };
                let text = match stringify_variable(&variable, locals) {
                    Ok(t) => t,
                    Err(e) => {
                        return Err(e);
                    },
                };
                output_buffer.append(text.as_str());
                at = e;
            },
            None => match find_open(&v, at) {
                Some(o) => {
                    if o == at {
                        return Err(AstryxError::Malformed);
                    }
                    let text = from_chars(&v, at, o);
                    output_buffer.append(text.as_str());
                    at = o;
                },
                None => {
                    let text = from_chars(&v, at, v.len());
                    output_buffer.append(text.as_str());
                    return Ok(output_buffer);
                },
            },
        }
    }
}

} // verus!
