//! What an interactive session does with a line that was typed.

use vstd::prelude::*;
use vstd::string::StrSliceExecFns;
use crate::interpreter::assoc::same_text;

verus! {

/// The text `s` without its first `pos` characters, which is empty where
/// `s` has no more than `pos`.
pub open spec fn cropped(s: Seq<char>, pos: int) -> Seq<char> {
    if 0 <= pos <= s.len() {
        s.subrange(pos, s.len() as int)
    } else {
        Seq::empty()
    }
}

/// Drops the first `pos` characters of `s`.
pub fn crop_letters(s: &str, pos: usize) -> (r: &str)
    ensures
        r@ == cropped(s@, pos as int),
{
    let n = s.unicode_len();
    if pos <= n {
        s.substring_char(pos, n)
    } else {
        let empty = "";
        proof {
            reveal_strlit("");
            assert(empty@ =~= Seq::<char>::empty());
        }
        empty
    }
}

/// What to do with a line.
#[derive(Debug)]
pub enum Command {
    /// Show the syntax tree of the text.
    Ast(String),
    /// End the session.
    Quit,
    /// Show the state.
    State,
    /// Say that there is no such command as this line.
    Unknown(String),
    /// Parse and evaluate the line.
    Evaluate(String),
}

pub enum CommandView {
    Ast(Seq<char>),
    Quit,
    State,
    Unknown(Seq<char>),
    Evaluate(Seq<char>),
}

impl View for Command {
    type V = CommandView;

    open spec fn view(&self) -> CommandView {
        match self {
            Command::Ast(s) => CommandView::Ast(s@),
            Command::Quit => CommandView::Quit,
            Command::State => CommandView::State,
            Command::Unknown(s) => CommandView::Unknown(s@),
            Command::Evaluate(s) => CommandView::Evaluate(s@),
        }
    }
}

/// What a line asks for. A line that starts with `:` asks for the syntax
/// tree of what follows the colon. A line that starts with `.` is a
/// command: `.quit`, `.exit` and `.q` end the session, `.state` and `.s`
/// show the state, and any other is unknown. Every other line is evaluated.
pub open spec fn command_of(line: Seq<char>) -> CommandView {
    if line[0] == ':' {
        CommandView::Ast(cropped(line, 1))
    } else if line[0] == '.' {
        if line == ".quit"@ || line == ".exit"@ || line == ".q"@ {
            CommandView::Quit
        } else if line == ".state"@ || line == ".s"@ {
            CommandView::State
        } else {
            CommandView::Unknown(line)
        }
    } else {
        CommandView::Evaluate(line)
    }
}

/// Decides what to do with a line that is not empty.
pub fn command(line: &str) -> (r: Command)
    requires
        line@.len() > 0,
    ensures
        r@ == command_of(line@),
{
    let first = line.get_char(0);
    if first == ':' {
        Command::Ast(crop_letters(line, 1).to_owned())
    } else if first == '.' {
        if same_text(line, ".quit") || same_text(line, ".exit") || same_text(line, ".q") {
            Command::Quit
        } else if same_text(line, ".state") || same_text(line, ".s") {
            Command::State
        } else {
            Command::Unknown(line.to_owned())
        }
    } else {
        Command::Evaluate(line.to_owned())
    }
}

} // verus!
