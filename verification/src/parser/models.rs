//! The syntax tree: statements, one to a line, and the expressions in them.

use vstd::prelude::*;
use crate::parser::span::{Span, SpanView};

verus! {

/// A value written out in the source.
#[derive(Debug)]
pub enum Literal {
    /// The text between two double quotes.
    String(Span),
    /// A number, as it is written.
    Number(Span),
}

/// A call: what is called, and the arguments, each under its name.
#[derive(Debug)]
pub struct FunctionCall {
    pub ident: Box<Expression>,
    pub arguments: Vec<(Span, Expression)>,
}

#[derive(Debug)]
pub enum Expression {
    FunctionCall(FunctionCall),
    /// A name, which may be dotted.
    Reference(Span),
    Literal(Literal),
    /// The path of a file, with its prefix.
    RelativePath(Span),
    /// A path with a wildcard in it.
    GlobPattern(Span),
    Array(Vec<Expression>),
    /// `left.right`: a member of `left`, or a method called on it.
    Index(Box<Expression>, Box<Expression>),
}

/// A piece of a text line: text to copy, or an expression to put in.
#[derive(Debug)]
pub enum StringToken {
    Text(Span),
    Expression(Expression),
}

/// A tag with its attributes, in the order in which they are written.
#[derive(Debug)]
pub struct Element {
    pub ident: Span,
    pub attributes: Vec<(Span, Expression)>,
}

#[derive(Debug)]
pub enum Statement {
    Element(Element),
    Expression(Expression),
    Text(Vec<StringToken>),
    Binding(Span, Expression),
    Comment(Span),
    ForLoop { ident: Span, expr: Expression },
}

/// A statement with the statements of the lines nested under its line.
#[derive(Debug)]
pub struct Node {
    pub statement: Statement,
    pub children: Vec<Node>,
}

pub enum LiteralView {
    String(SpanView),
    Number(SpanView),
}

pub enum ExpressionView {
    FunctionCall { ident: Box<ExpressionView>, arguments: Seq<(SpanView, ExpressionView)> },
    Reference(SpanView),
    Literal(LiteralView),
    RelativePath(SpanView),
    GlobPattern(SpanView),
    Array(Seq<ExpressionView>),
    Index(Box<ExpressionView>, Box<ExpressionView>),
}

pub enum StringTokenView {
    Text(SpanView),
    Expression(ExpressionView),
}

pub struct ElementView {
    pub ident: SpanView,
    pub attributes: Seq<(SpanView, ExpressionView)>,
}

pub enum StatementView {
    Element(ElementView),
    Expression(ExpressionView),
    Text(Seq<StringTokenView>),
    Binding(SpanView, ExpressionView),
    Comment(SpanView),
    ForLoop { ident: SpanView, expr: ExpressionView },
}

pub struct NodeView {
    pub statement: StatementView,
    pub children: Seq<NodeView>,
}

impl View for Literal {
    type V = LiteralView;

    open spec fn view(&self) -> LiteralView {
        match self {
            Literal::String(s) => LiteralView::String(s@),
            Literal::Number(s) => LiteralView::Number(s@),
        }
    }
}

impl Expression {
    pub open spec fn model(self) -> ExpressionView
        decreases self,
    {
        match self {
            Expression::FunctionCall(f) => ExpressionView::FunctionCall {
                ident: Box::new(f.ident.model()),
                arguments: Seq::new(
                    f.arguments@.len(),
                    |k: int|
                        if 0 <= k < f.arguments@.len() {
                            (f.arguments@[k].0@, f.arguments@[k].1.model())
                        } else {
                            arbitrary()
                        },
                ),
            },
            Expression::Reference(s) => ExpressionView::Reference(s@),
            Expression::Literal(l) => ExpressionView::Literal(l@),
            Expression::RelativePath(s) => ExpressionView::RelativePath(s@),
            Expression::GlobPattern(s) => ExpressionView::GlobPattern(s@),
            Expression::Array(items) => ExpressionView::Array(
                Seq::new(
                    items@.len(),
                    |k: int|
                        if 0 <= k < items@.len() {
                            items@[k].model()
                        } else {
                            arbitrary()
                        },
                ),
            ),
            Expression::Index(l, r) => ExpressionView::Index(
                Box::new(l.model()),
                Box::new(r.model()),
            ),
        }
    }
}

impl View for Expression {
    type V = ExpressionView;

    open spec fn view(&self) -> ExpressionView {
        self.model()
    }
}

/// What a vector of expressions stands for.
pub open spec fn expressions_view(items: Seq<Expression>) -> Seq<ExpressionView> {
    Seq::new(items.len(), |k: int| items[k]@)
}

/// What a vector of named expressions stands for.
pub open spec fn named_view(items: Seq<(Span, Expression)>) -> Seq<(SpanView, ExpressionView)> {
    Seq::new(items.len(), |k: int| (items[k].0@, items[k].1@))
}

impl View for StringToken {
    type V = StringTokenView;

    open spec fn view(&self) -> StringTokenView {
        match self {
            StringToken::Text(s) => StringTokenView::Text(s@),
            StringToken::Expression(e) => StringTokenView::Expression(e@),
        }
    }
}

/// What a vector of tokens stands for.
pub open spec fn tokens_view(items: Seq<StringToken>) -> Seq<StringTokenView> {
    Seq::new(items.len(), |k: int| items[k]@)
}

impl View for Element {
    type V = ElementView;

    open spec fn view(&self) -> ElementView {
        ElementView { ident: self.ident@, attributes: named_view(self.attributes@) }
    }
}

impl View for Statement {
    type V = StatementView;

    open spec fn view(&self) -> StatementView {
        match self {
            Statement::Element(e) => StatementView::Element(e@),
            Statement::Expression(e) => StatementView::Expression(e@),
            Statement::Text(t) => StatementView::Text(tokens_view(t@)),
            Statement::Binding(s, e) => StatementView::Binding(s@, e@),
            Statement::Comment(s) => StatementView::Comment(s@),
            Statement::ForLoop { ident, expr } => StatementView::ForLoop {
                ident: ident@,
                expr: expr@,
            },
        }
    }
}

impl Node {
    pub open spec fn model(self) -> NodeView
        decreases self,
    {
        NodeView {
            statement: self.statement@,
            children: Seq::new(
                self.children@.len(),
                |k: int|
                    if 0 <= k < self.children@.len() {
                        self.children@[k].model()
                    } else {
                        arbitrary()
                    },
            ),
        }
    }
}

impl View for Node {
    type V = NodeView;

    open spec fn view(&self) -> NodeView {
        self.model()
    }
}

/// What a vector of nodes stands for.
pub open spec fn nodes_view(items: Seq<Node>) -> Seq<NodeView> {
    Seq::new(items.len(), |k: int| items[k]@)
}

/// The view of a call is made of the views of its parts.
pub proof fn lemma_call_view(f: FunctionCall)
    ensures
        Expression::FunctionCall(f)@ == (ExpressionView::FunctionCall {
            ident: Box::new(f.ident@),
            arguments: named_view(f.arguments@),
        }),
{
    assert(Expression::FunctionCall(f)@->FunctionCall_arguments =~= named_view(f.arguments@));
}

/// The view of an array is made of the views of its items.
pub proof fn lemma_array_view(items: Vec<Expression>)
    ensures
        Expression::Array(items)@ == ExpressionView::Array(expressions_view(items@)),
{
    assert(Expression::Array(items)@->Array_0 =~= expressions_view(items@));
}

/// The view of a node is made of the views of its statement and children.
pub proof fn lemma_node_view(n: Node)
    ensures
        n@ == (NodeView { statement: n.statement@, children: nodes_view(n.children@) }),
{
    assert(n@.children =~= nodes_view(n.children@));
}

} // verus!
