//! What evaluation reports when it cannot go on.

use vstd::prelude::*;
use crate::parser::span::{Span, SpanView};

verus! {

/// The ways in which evaluation fails.
#[derive(Debug)]
pub enum InterpreterErrorKind {
    /// A value of one kind stands where another kind is needed.
    TypeMismatch { expected: String, actual: String },
    /// A name that nothing in scope binds.
    UnresolvedReference(String),
    /// A member that the value has not, or a method that is not bound.
    UnresolvedMember(String),
    /// What is called is no function.
    NotCallable,
    /// The pattern that a loop runs over matched no file.
    EmptyGlobResult,
    /// What the file system said in place of giving the contents.
    IOError(String),
    /// Output outside any page, where output is grouped into pages.
    OrphanElement,
    /// An element whose name cannot name a tag.
    InvalidElement(String),
}

/// A failure of evaluation, with the place in the source where it has one.
#[derive(Debug)]
pub struct InterpreterError {
    pub kind: InterpreterErrorKind,
    pub location: Option<Span>,
}

pub type InterpreterResult<T> = Result<T, InterpreterError>;

pub enum ErrorKindView {
    TypeMismatch { expected: Seq<char>, actual: Seq<char> },
    UnresolvedReference(Seq<char>),
    UnresolvedMember(Seq<char>),
    NotCallable,
    EmptyGlobResult,
    IOError(Seq<char>),
    OrphanElement,
    InvalidElement(Seq<char>),
}

pub struct ErrorView {
    pub kind: ErrorKindView,
    pub location: Option<SpanView>,
}

impl View for InterpreterErrorKind {
    type V = ErrorKindView;

    open spec fn view(&self) -> ErrorKindView {
        match self {
            InterpreterErrorKind::TypeMismatch { expected, actual } => ErrorKindView::TypeMismatch {
                expected: expected@,
                actual: actual@,
            },
            InterpreterErrorKind::UnresolvedReference(s) => ErrorKindView::UnresolvedReference(s@),
            InterpreterErrorKind::UnresolvedMember(s) => ErrorKindView::UnresolvedMember(s@),
            InterpreterErrorKind::NotCallable => ErrorKindView::NotCallable,
            InterpreterErrorKind::EmptyGlobResult => ErrorKindView::EmptyGlobResult,
            InterpreterErrorKind::IOError(s) => ErrorKindView::IOError(s@),
            InterpreterErrorKind::OrphanElement => ErrorKindView::OrphanElement,
            InterpreterErrorKind::InvalidElement(s) => ErrorKindView::InvalidElement(s@),
        }
    }
}

impl View for InterpreterError {
    type V = ErrorView;

    open spec fn view(&self) -> ErrorView {
        ErrorView {
            kind: self.kind@,
            location: match self.location {
                Some(s) => Some(s@),
                None => None,
            },
        }
    }
}

impl ErrorView {
    /// An error without a place.
    pub open spec fn plain(kind: ErrorKindView) -> ErrorView {
        ErrorView { kind, location: None }
    }

    /// An error found at `location`.
    pub open spec fn at(kind: ErrorKindView, location: SpanView) -> ErrorView {
        ErrorView { kind, location: Some(location) }
    }

    /// The error for a value of the kind `actual` where `expected` is
    /// needed.
    pub open spec fn mismatch(expected: Seq<char>, actual: Seq<char>) -> ErrorView {
        ErrorView::plain(ErrorKindView::TypeMismatch { expected, actual })
    }
}

impl InterpreterError {
    /// An error without a place.
    pub fn plain(kind: InterpreterErrorKind) -> (e: InterpreterError)
        ensures
            e@ == ErrorView::plain(kind@),
    {
        InterpreterError { kind, location: None }
    }

    /// An error found at `location`.
    pub fn at(kind: InterpreterErrorKind, location: &Span) -> (e: InterpreterError)
        ensures
            e@ == ErrorView::at(kind@, location@),
    {
        InterpreterError { kind, location: Some(location.clone()) }
    }

    /// The error for a value of the kind `actual` where `expected` is
    /// needed.
    pub fn mismatch(expected: &str, actual: String) -> (e: InterpreterError)
        ensures
            e@ == ErrorView::mismatch(expected@, actual@),
    {
        InterpreterError::plain(
            InterpreterErrorKind::TypeMismatch { expected: expected.to_owned(), actual },
        )
    }
}

} // verus!
