//! What the parser reports when the source is not in the grammar.

use vstd::prelude::*;
use crate::parser::span::{Span, SpanView};

verus! {

/// A failure to parse, with the place where it was found and the text
/// around it.
#[derive(Debug)]
pub struct ParserError<I> {
    pub kind: ParserErrorKind<I>,
    pub pos: I,
    pub context: I,
}

/// The ways in which parsing fails.
#[derive(Debug, PartialEq)]
pub enum ParserErrorKind<I> {
    SyntaxError,
    FunctionArgumentError,
    Unhandled,
    UnexpectedToken(String),
    ExpectedValue,
    Nom(I),
}

pub enum ParserErrorKindView {
    SyntaxError,
    FunctionArgumentError,
    Unhandled,
    UnexpectedToken(Seq<char>),
    ExpectedValue,
    Nom(SpanView),
}

pub struct ParserErrorView {
    pub kind: ParserErrorKindView,
    pub pos: SpanView,
    pub context: SpanView,
}

impl View for ParserErrorKind<Span> {
    type V = ParserErrorKindView;

    open spec fn view(&self) -> ParserErrorKindView {
        match self {
            ParserErrorKind::SyntaxError => ParserErrorKindView::SyntaxError,
            ParserErrorKind::FunctionArgumentError => ParserErrorKindView::FunctionArgumentError,
            ParserErrorKind::Unhandled => ParserErrorKindView::Unhandled,
            ParserErrorKind::UnexpectedToken(s) => ParserErrorKindView::UnexpectedToken(s@),
            ParserErrorKind::ExpectedValue => ParserErrorKindView::ExpectedValue,
            ParserErrorKind::Nom(i) => ParserErrorKindView::Nom(i@),
        }
    }
}

impl View for ParserError<Span> {
    type V = ParserErrorView;

    open spec fn view(&self) -> ParserErrorView {
        ParserErrorView { kind: self.kind@, pos: self.pos@, context: self.context@ }
    }
}

impl ParserErrorView {
    /// The error for text that is not in the grammar: found at `pos`, which
    /// also serves as its context.
    pub open spec fn syntax(pos: SpanView) -> ParserErrorView {
        ParserErrorView { kind: ParserErrorKindView::SyntaxError, pos, context: pos }
    }

    /// The error for text that is not in the grammar: found at `pos`, in
    /// the text `context`.
    pub open spec fn syntax_in(pos: SpanView, context: SpanView) -> ParserErrorView {
        ParserErrorView { kind: ParserErrorKindView::SyntaxError, pos, context }
    }

    /// The error for a token other than the one that was looked for, whose
    /// name is `what`.
    pub open spec fn unexpected(what: Seq<char>, pos: SpanView) -> ParserErrorView {
        ParserErrorView { kind: ParserErrorKindView::UnexpectedToken(what), pos, context: pos }
    }

    /// The error of a parser that gives no reason.
    pub open spec fn unhandled(pos: SpanView) -> ParserErrorView {
        ParserErrorView { kind: ParserErrorKindView::Unhandled, pos, context: pos }
    }
}

impl ParserError<Span> {
    /// The error for text that is not in the grammar, found at `pos`.
    pub fn syntax(pos: Span) -> (e: ParserError<Span>)
        ensures
            e@ == ParserErrorView::syntax(pos@),
    {
        let context = pos.clone();
        ParserError { kind: ParserErrorKind::SyntaxError, pos, context }
    }

    /// The error for text that is not in the grammar, found at `pos` in the
    /// text `context`.
    pub fn syntax_in(pos: Span, context: Span) -> (e: ParserError<Span>)
        ensures
            e@ == ParserErrorView::syntax_in(pos@, context@),
    {
        ParserError { kind: ParserErrorKind::SyntaxError, pos, context }
    }

    /// The error for an unexpected token where `what` was looked for.
    pub fn unexpected(what: &str, pos: Span) -> (e: ParserError<Span>)
        ensures
            e@ == ParserErrorView::unexpected(what@, pos@),
    {
        let context = pos.clone();
        ParserError { kind: ParserErrorKind::UnexpectedToken(what.to_owned()), pos, context }
    }

    /// The error of a parser that gives no reason, found at `pos`.
    pub fn unhandled(pos: Span) -> (e: ParserError<Span>)
        ensures
            e@ == ParserErrorView::unhandled(pos@),
    {
        let context = pos.clone();
        ParserError { kind: ParserErrorKind::Unhandled, pos, context }
    }
}

} // verus!
