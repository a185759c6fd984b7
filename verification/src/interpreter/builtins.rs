//! The functions that the host offers, and calling them.

use vstd::prelude::*;
use vstd::string::StringExecFns;
use crate::interpreter::assoc::{find_last, last_of};
use crate::interpreter::error::{ErrorKindView, ErrorView, InterpreterError, InterpreterErrorKind};
use crate::interpreter::models::{bindings_view, Builtin, Object, ObjectView};
use crate::interpreter::program::{append_to_last, InstructionView, ProgramInstruction};
use crate::interpreter::state::{State, StateView};
use crate::parser::chars::to_chars;

verus! {

/// The character `c`, in upper case where it is a small ASCII letter.
pub open spec fn ascii_upper(c: char) -> char {
    if 'a' <= c && c <= 'z' {
        ((c as u8) - 32) as char
    } else {
        c
    }
}

/// The text `s` with its small ASCII letters in upper case.
pub open spec fn upper(s: Seq<char>) -> Seq<char> {
    Seq::new(s.len(), |k: int| ascii_upper(s[k]))
}

/// The text `s` with its small ASCII letters in upper case.
pub fn to_upper(s: &str) -> (r: String)
    ensures
        r@ == upper(s@),
{
    let chars = to_chars(s);
    let mut r = String::new();
    let mut k: usize = 0;
    while k < chars.len()
        invariant
            k <= chars.len(),
            chars@ == s@,
            r@ == upper(s@).subrange(0, k as int),
        decreases chars.len() - k,
    {
        let c = chars[k];
        let u = if 'a' <= c && c <= 'z' {
            ((c as u8) - 32) as char
        } else {
            c
        };
        proof {
            assert(upper(s@).subrange(0, k as int).push(u) =~= upper(s@).subrange(0, k as int + 1));
        }
        r.push(u);
        k = k + 1;
    }
    proof {
        assert(upper(s@).subrange(0, k as int) =~= upper(s@));
    }
    r
}

/// The string that the argument `name` of a call is, where there is one
/// and it is a string.
pub open spec fn optional(scope: Seq<(Seq<char>, ObjectView)>, name: Seq<char>) -> Option<
    Seq<char>,
> {
    match last_of(scope, name) {
        Some(ObjectView::String(s)) => Some(s),
        _ => None,
    }
}

/// The state with `instruction` written to the last page.
pub open spec fn with_last(st: StateView, instruction: InstructionView) -> StateView {
    StateView { pages: append_to_last(st.pages, instruction), ..st }
}

/// The state after the head of a page is written to the last page: for a
/// title the element `title` with the title as its text, then for a
/// stylesheet a `link` element to it, its address behind a `/`.
pub open spec fn page_head(
    st: StateView,
    title: Option<Seq<char>>,
    stylesheet: Option<Seq<char>>,
) -> StateView {
    let titled = match title {
        Some(t) => with_last(
            with_last(
                with_last(st, InstructionView::OpenTag("<title>"@)),
                InstructionView::Text(t),
            ),
            InstructionView::CloseTag("</title>"@),
        ),
        None => st,
    };
    match stylesheet {
        Some(s) => with_last(
            titled,
            InstructionView::OpenTag("<link rel=\"stylesheet\" href=\"/"@ + s + "\">"@),
        ),
        None => titled,
    }
}

/// What calling `builtin` gives: the value it returns and the state after
/// it. The function reads its arguments from `scope` by name.
///
/// `page` needs a string `route` and starts a page at it; where `title` or
/// `stylesheet` is given as a string, the page starts with its head. It
/// returns the empty string. `upper` needs a string `$self`, the value it is called
/// on, and returns it in upper case. `embed` needs a string `path` and
/// returns it: a path that is written as an argument is evaluated to the
/// text of its file, and that text is what `embed` hands on. An argument
/// that is missing is an unresolved reference to its name; one that is no
/// string is a type mismatch. A function that fails changes nothing.
pub open spec fn invoke(
    builtin: Builtin,
    scope: Seq<(Seq<char>, ObjectView)>,
    st: StateView,
) -> Result<(ObjectView, StateView), ErrorView> {
    match builtin {
        Builtin::Page => match last_of(scope, "route"@) {
            Some(ObjectView::String(route)) => Ok(
                (
                    ObjectView::String(Seq::empty()),
                    page_head(
                        st.open_page(route),
                        optional(scope, "title"@),
                        optional(scope, "stylesheet"@),
                    ),
                ),
            ),
            Some(other) => Err(ErrorView::mismatch("String"@, other.kind())),
            None => Err(ErrorView::plain(ErrorKindView::UnresolvedReference("route"@))),
        },
        Builtin::Upper => match last_of(scope, "$self"@) {
            Some(ObjectView::String(s)) => Ok((ObjectView::String(upper(s)), st)),
            Some(other) => Err(ErrorView::mismatch("String"@, other.kind())),
            None => Err(ErrorView::plain(ErrorKindView::UnresolvedReference("$self"@))),
        },
        Builtin::Embed => match last_of(scope, "path"@) {
            Some(ObjectView::String(text)) => Ok((ObjectView::String(text), st)),
            Some(other) => Err(ErrorView::mismatch("String"@, other.kind())),
            None => Err(ErrorView::plain(ErrorKindView::UnresolvedReference("path"@))),
        },
    }
}

/// Reads the string argument `name` of a call from `scope`.
pub fn string_argument(scope: &Vec<(String, Object)>, name: &str) -> (r: Result<
    String,
    InterpreterError,
>)
    ensures
        match r {
            Ok(s) => last_of(bindings_view(scope@), name@) == Some(ObjectView::String(s@)),
            Err(e) => match last_of(bindings_view(scope@), name@) {
                Some(ObjectView::String(_)) => false,
                Some(other) => e@ == ErrorView::mismatch("String"@, other.kind()),
                None => e@ == ErrorView::plain(ErrorKindView::UnresolvedReference(name@)),
            },
        },
{
    match find_last(scope, name) {
        Some(Object::String(s)) => Ok(s.clone()),
        Some(other) => Err(InterpreterError::mismatch("String", other.kind())),
        None => Err(
            InterpreterError::plain(InterpreterErrorKind::UnresolvedReference(name.to_owned())),
        ),
    }
}

/// Reads the argument `name` of a call from `scope`, where it is given as a
/// string.
pub fn optional_argument(scope: &Vec<(String, Object)>, name: &str) -> (r: Option<String>)
    ensures
        match r {
            Some(s) => optional(bindings_view(scope@), name@) == Some(s@),
            None => optional(bindings_view(scope@), name@) is None,
        },
{
    match find_last(scope, name) {
        Some(Object::String(s)) => Some(s.clone()),
        _ => None,
    }
}

/// Writes `instruction` to the last page, which is there.
fn put(state: &mut State, instruction: ProgramInstruction)
    requires
        old(state)@.pages.len() > 0,
    ensures
        final(state)@ == with_last(old(state)@, instruction@),
        final(state)@.pages.len() > 0,
{
    match state.push_instruction(instruction) {
        Ok(_) => {},
        Err(_) => {},
    }
}

/// Calls `builtin` with the arguments in `scope`.
pub fn call_builtin(builtin: Builtin, scope: &Vec<(String, Object)>, state: &mut State) -> (r:
    Result<Object, InterpreterError>)
    ensures
        match r {
            Ok(v) => invoke(builtin, bindings_view(scope@), old(state)@) == Ok::<
                (ObjectView, StateView),
                ErrorView,
            >((v@, final(state)@)),
            Err(e) => invoke(builtin, bindings_view(scope@), old(state)@) == Err::<
                (ObjectView, StateView),
                ErrorView,
            >(e@) && final(state)@ == old(state)@,
        },
{
    match builtin {
        Builtin::Page => {
            let route = string_argument(scope, "route")?;
            let title = optional_argument(scope, "title");
            let stylesheet = optional_argument(scope, "stylesheet");
            state.open_page(route);
            if let Some(t) = title {
                put(state, ProgramInstruction::OpenTag("<title>".to_owned()));
                put(state, ProgramInstruction::Text(t));
                put(state, ProgramInstruction::CloseTag("</title>".to_owned()));
            }
            if let Some(s) = stylesheet {
                let mut link = "<link rel=\"stylesheet\" href=\"/".to_owned();
                link.append(s.as_str());
                link.append("\">");
                put(state, ProgramInstruction::OpenTag(link));
            }
            Ok(Object::String(String::new()))
        },
        Builtin::Upper => {
            let s = string_argument(scope, "$self")?;
            Ok(Object::String(to_upper(s.as_str())))
        },
        Builtin::Embed => {
            let text = string_argument(scope, "path")?;
            Ok(Object::String(text))
        },
    }
}

} // verus!
