//! What evaluation needs from the file system: what it takes from the
//! state, and the list of what a syntax tree may ask for.

use vstd::prelude::*;
use crate::interpreter::error::{ErrorView, InterpreterError};
use crate::interpreter::models::{Object, ObjectView};
use crate::interpreter::state::State;
use crate::parser::models::{
    expressions_view,
    lemma_array_view,
    lemma_call_view,
    lemma_node_view,
    named_view,
    nodes_view,
    tokens_view,
    Expression,
    ExpressionView,
    Node,
    NodeView,
    Statement,
    StatementView,
    StringToken,
    StringTokenView,
};
use crate::parser::span::{Span, SpanView};

verus! {

/// The paths of the files that match the pattern `s`, as an array.
pub fn glob_files(state: &State, s: &Span) -> (r: Result<Object, InterpreterError>)
    ensures
        match r {
            Ok(v) => state@.glob_paths(s@.fragment) == Ok::<ObjectView, ErrorView>(v@),
            Err(e) => state@.glob_paths(s@.fragment) == Err::<ObjectView, ErrorView>(e@),
        },
{
    let pattern = s.fragment();
    state.glob_paths(pattern.as_str())
}

/// The contents of the files that match the pattern `s`, as an array.
pub fn import_files(state: &State, s: &Span) -> (r: Result<Object, InterpreterError>)
    ensures
        match r {
            Ok(v) => state@.glob_array(s@.fragment) == Ok::<ObjectView, ErrorView>(v@),
            Err(e) => state@.glob_array(s@.fragment) == Err::<ObjectView, ErrorView>(e@),
        },
{
    let pattern = s.fragment();
    state.expand_glob(pattern.as_str())
}

/// The contents of the file at the path `s`, as a string.
pub fn import_file(state: &State, s: &Span) -> (r: Result<Object, InterpreterError>)
    ensures
        match r {
            Ok(v) => match state@.file(s@.fragment) {
                Ok(c) => v@ == ObjectView::String(c),
                Err(_) => false,
            },
            Err(e) => state@.file(s@.fragment) == Err::<Seq<char>, ErrorView>(e@),
        },
{
    let path = s.fragment();
    match state.read_file(path.as_str()) {
        Ok(contents) => Ok(Object::String(contents)),
        Err(e) => Err(e),
    }
}

/// Something that evaluation asks the file system for.
#[derive(Debug)]
pub enum Request {
    /// The contents of the file at a path.
    File(String),
    /// The files that match a pattern.
    Glob(String),
}

pub enum RequestView {
    File(Seq<char>),
    Glob(Seq<char>),
}

impl View for Request {
    type V = RequestView;

    open spec fn view(&self) -> RequestView {
        match self {
            Request::File(s) => RequestView::File(s@),
            Request::Glob(s) => RequestView::Glob(s@),
        }
    }
}

/// What a vector of requests stands for.
pub open spec fn requests_view(items: Seq<Request>) -> Seq<RequestView> {
    Seq::new(items.len(), |k: int| items[k]@)
}

/// The paths and patterns in the expression `e`, in the order in which
/// they are written.
pub open spec fn wanted_by(e: ExpressionView) -> Seq<RequestView>
    decreases e,
{
    match e {
        ExpressionView::RelativePath(s) => seq![RequestView::File(s.fragment)],
        ExpressionView::GlobPattern(s) => seq![RequestView::Glob(s.fragment)],
        ExpressionView::FunctionCall { ident, arguments } => wanted_by(*ident) + wanted_by_named(
            arguments,
        ),
        ExpressionView::Array(items) => wanted_by_items(items),
        ExpressionView::Index(left, right) => wanted_by(*left) + wanted_by(*right),
        _ => Seq::empty(),
    }
}

pub open spec fn wanted_by_named(items: Seq<(SpanView, ExpressionView)>) -> Seq<RequestView>
    decreases items,
{
    if items.len() == 0 {
        Seq::empty()
    } else {
        wanted_by(items[0].1) + wanted_by_named(items.drop_first())
    }
}

pub open spec fn wanted_by_items(items: Seq<ExpressionView>) -> Seq<RequestView>
    decreases items,
{
    if items.len() == 0 {
        Seq::empty()
    } else {
        wanted_by(items[0]) + wanted_by_items(items.drop_first())
    }
}

pub open spec fn wanted_by_tokens(tokens: Seq<StringTokenView>) -> Seq<RequestView>
    decreases tokens.len(),
{
    if tokens.len() == 0 {
        Seq::empty()
    } else {
        (match tokens[0] {
            StringTokenView::Text(_) => Seq::empty(),
            StringTokenView::Expression(e) => wanted_by(e),
        }) + wanted_by_tokens(tokens.drop_first())
    }
}

/// The paths and patterns that evaluating `node` may ask for, in the order
/// of the source: those of its statement, and those of the statements
/// under it where they are evaluated, which is under an element, an
/// expression and a loop.
pub open spec fn wanted_by_node(node: NodeView) -> Seq<RequestView>
    decreases node,
{
    match node.statement {
        StatementView::Element(el) => wanted_by_named(el.attributes) + wanted_by_nodes(
            node.children,
        ),
        StatementView::Expression(e) => wanted_by(e) + wanted_by_nodes(node.children),
        StatementView::Text(tokens) => wanted_by_tokens(tokens),
        StatementView::Binding(_, e) => wanted_by(e),
        StatementView::Comment(_) => Seq::empty(),
        StatementView::ForLoop { ident: _, expr } => wanted_by(expr) + wanted_by_nodes(
            node.children,
        ),
    }
}

pub open spec fn wanted_by_nodes(nodes: Seq<NodeView>) -> Seq<RequestView>
    decreases nodes,
{
    if nodes.len() == 0 {
        Seq::empty()
    } else {
        wanted_by_node(nodes[0]) + wanted_by_nodes(nodes.drop_first())
    }
}

#[verifier::loop_isolation(false)]
fn collect_expression(e: &Expression, out: &mut Vec<Request>)
    ensures
        requests_view(final(out)@) == requests_view(old(out)@) + wanted_by(e@),
    decreases e, 1nat,
{
    let ghost start = requests_view(out@);
    match e {
        Expression::RelativePath(s) => {
            let r = Request::File(s.fragment());
            proof {
                assert(requests_view(out@.push(r)) =~= start + seq![r@]);
            }
            out.push(r);
        },
        Expression::GlobPattern(s) => {
            let r = Request::Glob(s.fragment());
            proof {
                assert(requests_view(out@.push(r)) =~= start + seq![r@]);
            }
            out.push(r);
        },
        Expression::FunctionCall(f) => {
            proof {
                lemma_call_view(*f);
            }
            collect_expression(&f.ident, out);
            collect_named(&f.arguments, out);
            proof {
                assert((start + wanted_by(f.ident@)) + wanted_by_named(named_view(f.arguments@))
                    =~= start + (wanted_by(f.ident@) + wanted_by_named(
                    named_view(f.arguments@),
                )));
            }
        },
        Expression::Array(items) => {
            proof {
                lemma_array_view(*items);
            }
            let ghost all = expressions_view(items@);
            let mut k: usize = 0;
            proof {
                assert(all.subrange(0, all.len() as int) =~= all);
            }
            while k < items.len()
                invariant
                    k <= items.len(),
                    start + wanted_by_items(all) == requests_view(out@) + wanted_by_items(
                        all.subrange(k as int, all.len() as int),
                    ),
                decreases items.len() - k,
            {
                let ghost tail = all.subrange(k as int, all.len() as int);
                let ghost before = requests_view(out@);
                proof {
                    assert(tail[0] == items@[k as int]@);
                    assert(tail.drop_first() =~= all.subrange(k as int + 1, all.len() as int));
                    assert(before + (wanted_by(tail[0]) + wanted_by_items(tail.drop_first()))
                        =~= (before + wanted_by(tail[0])) + wanted_by_items(tail.drop_first()));
                }
                collect_expression(&items[k], out);
                k = k + 1;
            }
            proof {
                assert(all.subrange(k as int, all.len() as int) =~= Seq::empty());
                assert(requests_view(out@) + Seq::<RequestView>::empty() =~= requests_view(out@));
            }
        },
        Expression::Index(l, r) => {
            collect_expression(l, out);
            collect_expression(r, out);
            proof {
                assert((start + wanted_by(l@)) + wanted_by(r@) =~= start + (wanted_by(l@)
                    + wanted_by(r@)));
            }
        },
        _ => {
            proof {
                assert(start + Seq::<RequestView>::empty() =~= start);
            }
        },
    }
}

#[verifier::loop_isolation(false)]
fn collect_named(items: &Vec<(Span, Expression)>, out: &mut Vec<Request>)
    ensures
        requests_view(final(out)@) == requests_view(old(out)@) + wanted_by_named(
            named_view(items@),
        ),
    decreases items, 0nat,
{
    let ghost start = requests_view(out@);
    let ghost all = named_view(items@);
    let mut k: usize = 0;
    proof {
        assert(all.subrange(0, all.len() as int) =~= all);
    }
    while k < items.len()
        invariant
            k <= items.len(),
            start + wanted_by_named(all) == requests_view(out@) + wanted_by_named(
                all.subrange(k as int, all.len() as int),
            ),
        decreases items.len() - k,
    {
        let ghost tail = all.subrange(k as int, all.len() as int);
        let ghost before = requests_view(out@);
        proof {
            assert(tail[0] == (items@[k as int].0@, items@[k as int].1@));
            assert(tail.drop_first() =~= all.subrange(k as int + 1, all.len() as int));
            assert(before + (wanted_by(tail[0].1) + wanted_by_named(tail.drop_first())) =~= (before
                + wanted_by(tail[0].1)) + wanted_by_named(tail.drop_first()));
        }
        collect_expression(&items[k].1, out);
        k = k + 1;
    }
    proof {
        assert(all.subrange(k as int, all.len() as int) =~= Seq::empty());
        assert(requests_view(out@) + Seq::<RequestView>::empty() =~= requests_view(out@));
    }
}

#[verifier::loop_isolation(false)]
fn collect_tokens(tokens: &Vec<StringToken>, out: &mut Vec<Request>)
    ensures
        requests_view(final(out)@) == requests_view(old(out)@) + wanted_by_tokens(
            tokens_view(tokens@),
        ),
{
    let ghost start = requests_view(out@);
    let ghost all = tokens_view(tokens@);
    let mut k: usize = 0;
    proof {
        assert(all.subrange(0, all.len() as int) =~= all);
    }
    while k < tokens.len()
        invariant
            k <= tokens.len(),
            start + wanted_by_tokens(all) == requests_view(out@) + wanted_by_tokens(
                all.subrange(k as int, all.len() as int),
            ),
        decreases tokens.len() - k,
    {
        let ghost tail = all.subrange(k as int, all.len() as int);
        let ghost before = requests_view(out@);
        proof {
            assert(tail[0] == tokens@[k as int]@);
            assert(tail.drop_first() =~= all.subrange(k as int + 1, all.len() as int));
        }
        match &tokens[k] {
            StringToken::Text(_) => {
                proof {
                    assert(before + (Seq::<RequestView>::empty() + wanted_by_tokens(
                        tail.drop_first(),
                    )) =~= before + wanted_by_tokens(tail.drop_first()));
                }
            },
            StringToken::Expression(e) => {
                proof {
                    assert(before + (wanted_by(e@) + wanted_by_tokens(tail.drop_first()))
                        =~= (before + wanted_by(e@)) + wanted_by_tokens(tail.drop_first()));
                }
                collect_expression(e, out);
            },
        }
        k = k + 1;
    }
    proof {
        assert(all.subrange(k as int, all.len() as int) =~= Seq::empty());
        assert(requests_view(out@) + Seq::<RequestView>::empty() =~= requests_view(out@));
    }
}

fn collect_node(node: &Node, out: &mut Vec<Request>)
    ensures
        requests_view(final(out)@) == requests_view(old(out)@) + wanted_by_node(node@),
    decreases node, 1nat,
{
    let ghost start = requests_view(out@);
    proof {
        lemma_node_view(*node);
    }
    match &node.statement {
        Statement::Element(el) => {
            collect_named(&el.attributes, out);
            collect_nodes(&node.children, out);
            proof {
                assert((start + wanted_by_named(named_view(el.attributes@))) + wanted_by_nodes(
                    nodes_view(node.children@),
                ) =~= start + (wanted_by_named(named_view(el.attributes@)) + wanted_by_nodes(
                    nodes_view(node.children@),
                )));
            }
        },
        Statement::Expression(e) => {
            collect_expression(e, out);
            collect_nodes(&node.children, out);
            proof {
                assert((start + wanted_by(e@)) + wanted_by_nodes(nodes_view(node.children@))
                    =~= start + (wanted_by(e@) + wanted_by_nodes(nodes_view(node.children@))));
            }
        },
        Statement::Text(tokens) => {
            collect_tokens(tokens, out);
        },
        Statement::Binding(_, e) => {
            collect_expression(e, out);
        },
        Statement::Comment(_) => {
            proof {
                assert(start + Seq::<RequestView>::empty() =~= start);
            }
        },
        Statement::ForLoop { ident: _, expr } => {
            collect_expression(expr, out);
            collect_nodes(&node.children, out);
            proof {
                assert((start + wanted_by(expr@)) + wanted_by_nodes(nodes_view(node.children@))
                    =~= start + (wanted_by(expr@) + wanted_by_nodes(nodes_view(node.children@))));
            }
        },
    }
}

#[verifier::loop_isolation(false)]
fn collect_nodes(nodes: &Vec<Node>, out: &mut Vec<Request>)
    ensures
        requests_view(final(out)@) == requests_view(old(out)@) + wanted_by_nodes(
            nodes_view(nodes@),
        ),
    decreases nodes, 0nat,
{
    let ghost start = requests_view(out@);
    let ghost all = nodes_view(nodes@);
    let mut k: usize = 0;
    proof {
        assert(all.subrange(0, all.len() as int) =~= all);
    }
    while k < nodes.len()
        invariant
            k <= nodes.len(),
            start + wanted_by_nodes(all) == requests_view(out@) + wanted_by_nodes(
                all.subrange(k as int, all.len() as int),
            ),
        decreases nodes.len() - k,
    {
        let ghost tail = all.subrange(k as int, all.len() as int);
        let ghost before = requests_view(out@);
        proof {
            assert(tail[0] == nodes@[k as int]@);
            assert(tail.drop_first() =~= all.subrange(k as int + 1, all.len() as int));
            assert(before + (wanted_by_node(tail[0]) + wanted_by_nodes(tail.drop_first()))
                =~= (before + wanted_by_node(tail[0])) + wanted_by_nodes(tail.drop_first()));
        }
        collect_node(&nodes[k], out);
        k = k + 1;
    }
    proof {
        assert(all.subrange(k as int, all.len() as int) =~= Seq::empty());
        assert(requests_view(out@) + Seq::<RequestView>::empty() =~= requests_view(out@));
    }
}

/// Lists what evaluating `nodes` may ask the file system for: every path
/// and pattern that stands where it is evaluated, in the order of the
/// source.
pub fn requests(nodes: &Vec<Node>) -> (r: Vec<Request>)
    ensures
        requests_view(r@) == wanted_by_nodes(nodes_view(nodes@)),
{
    let mut out: Vec<Request> = Vec::new();
    proof {
        assert(requests_view(out@) =~= Seq::empty());
    }
    collect_nodes(nodes, &mut out);
    proof {
        assert(Seq::<RequestView>::empty() + wanted_by_nodes(nodes_view(nodes@))
            =~= wanted_by_nodes(nodes_view(nodes@)));
    }
    out
}

} // verus!
