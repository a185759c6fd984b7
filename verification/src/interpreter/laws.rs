//! What holds of every evaluation.

use vstd::prelude::*;
use crate::interpreter::error::ErrorView;
use crate::interpreter::eval::{
    after_loop,
    after_nodes,
    after_statement,
    attributes_of,
    call_scope,
    called,
    text_of,
    value_of,
    values_of,
};
use crate::interpreter::html::open_tag_text;
use crate::interpreter::models::ObjectView;
use crate::interpreter::program::InstructionView;
use crate::interpreter::state::StateView;
use crate::parser::models::{
    ExpressionView,
    NodeView,
    StatementView,
    StringTokenView,
};
use crate::parser::span::SpanView;

verus! {

/// Whether `b` has the scope of `a` and knows the same files: at most the
/// pages differ.
pub open spec fn same_scope(a: StateView, b: StateView) -> bool {
    &&& a.scope == b.scope
    &&& a.grouped == b.grouped
    &&& a.files == b.files
    &&& a.globs == b.globs
    &&& a.pwd == b.pwd
}

/// The state in which an evaluation ends: the state after it, or the state
/// at the failure.
pub open spec fn end_state<T>(r: Result<(T, StateView), (ErrorView, StateView)>) -> StateView {
    match r {
        Ok((_, st)) => st,
        Err((_, st)) => st,
    }
}

/// The state in which a statement ends: the state after it, or the state
/// at the failure.
pub open spec fn end_of(r: Result<StateView, (ErrorView, StateView)>) -> StateView {
    match r {
        Ok(st) => st,
        Err((_, st)) => st,
    }
}

/// Whether the scope of `b` is that of `a` with further bindings behind
/// it, and `b` knows the same files.
pub open spec fn extends(a: StateView, b: StateView) -> bool {
    &&& a.scope.len() <= b.scope.len()
    &&& b.scope.subrange(0, a.scope.len() as int) == a.scope
    &&& a.grouped == b.grouped
    &&& a.files == b.files
    &&& a.globs == b.globs
    &&& a.pwd == b.pwd
}

/// Evaluating an expression binds nothing: the state after it has the
/// scope of the state before it.
pub proof fn lemma_expression_keeps_scope(e: ExpressionView, st: StateView)
    ensures
        same_scope(st, end_state(value_of(e, st))),
    decreases e, 1nat,
{
    match e {
        ExpressionView::Array(items) => {
            lemma_items_keep_scope(items, st, Seq::empty());
        },
        ExpressionView::FunctionCall { .. } => {
            lemma_call_keeps_scope(e, st, Seq::empty(), false);
        },
        ExpressionView::Index(left, right) => {
            lemma_expression_keeps_scope(*left, st);
            match value_of(*left, st) {
                Ok((ObjectView::String(s), st1)) => {
                    if *right is FunctionCall {
                        lemma_call_keeps_scope(
                            *right,
                            st1,
                            seq![("$self"@, ObjectView::String(s))],
                            true,
                        );
                    }
                },
                _ => {},
            }
        },
        _ => {},
    }
}

proof fn lemma_call_keeps_scope(
    call: ExpressionView,
    st: StateView,
    first: Seq<(Seq<char>, ObjectView)>,
    as_member: bool,
)
    ensures
        same_scope(st, end_state(called(call, st, first, as_member))),
    decreases call, 0nat,
{
    match call {
        ExpressionView::FunctionCall { ident, arguments } => {
            lemma_expression_keeps_scope(*ident, st);
            match value_of(*ident, st) {
                Ok((ObjectView::BuiltinFunction(b), st1)) => {
                    lemma_arguments_keep_scope(arguments, st1, first);
                },
                _ => {},
            }
        },
        _ => {},
    }
}

proof fn lemma_arguments_keep_scope(
    arguments: Seq<(SpanView, ExpressionView)>,
    st: StateView,
    scope: Seq<(Seq<char>, ObjectView)>,
)
    ensures
        same_scope(st, end_state(call_scope(arguments, st, scope))),
    decreases arguments, 1nat,
{
    if arguments.len() > 0 {
        lemma_expression_keeps_scope(arguments[0].1, st);
        match value_of(arguments[0].1, st) {
            Ok((v, st1)) => {
                lemma_arguments_keep_scope(
                    arguments.drop_first(),
                    st1,
                    scope.push((arguments[0].0.fragment, v)),
                );
            },
            Err(_) => {},
        }
    }
}

proof fn lemma_items_keep_scope(items: Seq<ExpressionView>, st: StateView, done: Seq<ObjectView>)
    ensures
        same_scope(st, end_state(values_of(items, st, done))),
    decreases items, 1nat,
{
    if items.len() > 0 {
        lemma_expression_keeps_scope(items[0], st);
        match value_of(items[0], st) {
            Ok((v, st1)) => {
                lemma_items_keep_scope(items.drop_first(), st1, done.push(v));
            },
            Err(_) => {},
        }
    }
}

proof fn lemma_text_keeps_scope(tokens: Seq<StringTokenView>, st: StateView, done: Seq<char>)
    ensures
        same_scope(st, end_state(text_of(tokens, st, done))),
    decreases tokens.len(),
{
    if tokens.len() > 0 {
        match tokens[0] {
            StringTokenView::Text(t) => {
                lemma_text_keeps_scope(tokens.drop_first(), st, done + t.fragment);
            },
            StringTokenView::Expression(e) => {
                lemma_expression_keeps_scope(e, st);
                match value_of(e, st) {
                    Ok((v, st1)) => {
                        if let Some(t) = v.text() {
                            lemma_text_keeps_scope(tokens.drop_first(), st1, done + t);
                        }
                    },
                    Err(_) => {},
                }
            },
        }
    }
}

proof fn lemma_attributes_keep_scope(
    attributes: Seq<(SpanView, ExpressionView)>,
    st: StateView,
    done: Seq<(Seq<char>, Seq<char>)>,
)
    ensures
        same_scope(st, end_state(attributes_of(attributes, st, done))),
    decreases attributes.len(),
{
    if attributes.len() > 0 {
        lemma_expression_keeps_scope(attributes[0].1, st);
        match value_of(attributes[0].1, st) {
            Ok((v, st1)) => {
                if let Some(value) = v.string() {
                    lemma_attributes_keep_scope(
                        attributes.drop_first(),
                        st1,
                        crate::interpreter::html::set_attribute(
                            done,
                            attributes[0].0.fragment,
                            value,
                        ),
                    );
                }
            },
            Err(_) => {},
        }
    }
}

/// A child scope never changes what its parent binds: after a statement,
/// and also where it fails, all bindings that were in scope before it are
/// still there, in their places; what it binds stands behind them.
pub proof fn lemma_statement_extends_scope(node: NodeView, st: StateView)
    ensures
        extends(st, end_of(after_statement(node, st))),
    decreases node, 0nat,
{
    assert(st.scope.subrange(0, st.scope.len() as int) =~= st.scope);
    match node.statement {
        StatementView::Element(el) => {
            lemma_attributes_keep_scope(el.attributes, st, Seq::empty());
            match attributes_of(el.attributes, st, Seq::empty()) {
                Ok((attributes, st1)) => {
                    let open = InstructionView::OpenTag(
                        open_tag_text(el.ident.fragment, attributes),
                    );
                    match st1.emit(open) {
                        Ok(st2) => {
                            lemma_nodes_extend_scope(node.children, st2);
                            lemma_extends_chain(
                                st,
                                st2,
                                end_of(after_nodes(node.children, st2)),
                            );
                        },
                        Err(_) => {},
                    }
                },
                Err(_) => {},
            }
        },
        StatementView::Expression(e) => {
            lemma_expression_keeps_scope(e, st);
            match value_of(e, st) {
                Ok((v, st1)) => {
                    if let Some(t) = v.text() {
                        match st1.emit(InstructionView::Text(t)) {
                            Ok(st2) => {
                                lemma_nodes_extend_scope(node.children, st2);
                                lemma_extends_chain(
                                    st,
                                    st2,
                                    end_of(after_nodes(node.children, st2)),
                                );
                            },
                            Err(_) => {},
                        }
                    }
                },
                Err(_) => {},
            }
        },
        StatementView::Text(tokens) => {
            lemma_text_keeps_scope(tokens, st, Seq::empty());
        },
        StatementView::Binding(name, e) => {
            lemma_expression_keeps_scope(e, st);
            match value_of(e, st) {
                Ok((v, st1)) => {
                    assert(st1.bind(name.fragment, v).scope.subrange(0, st.scope.len() as int)
                        =~= st.scope);
                },
                Err(_) => {},
            }
        },
        StatementView::Comment(_) => {},
        StatementView::ForLoop { ident, expr } => {
            lemma_expression_keeps_scope(expr, st);
            match value_of(expr, st) {
                Ok((v, st1)) => {
                    if let Some(items) = v.items() {
                        lemma_loop_keeps_scope(items, ident.fragment, node.children, st1);
                    }
                },
                Err(_) => {},
            }
        },
    }
}

proof fn lemma_extends_chain(a: StateView, b: StateView, c: StateView)
    requires
        extends(a, b),
        extends(b, c),
    ensures
        extends(a, c),
{
    assert(c.scope.subrange(0, a.scope.len() as int) =~= c.scope.subrange(
        0,
        b.scope.len() as int,
    ).subrange(0, a.scope.len() as int));
}

/// As `lemma_statement_extends_scope`, for statements in sequence.
pub proof fn lemma_nodes_extend_scope(nodes: Seq<NodeView>, st: StateView)
    ensures
        extends(st, end_of(after_nodes(nodes, st))),
    decreases nodes, 0nat,
{
    assert(st.scope.subrange(0, st.scope.len() as int) =~= st.scope);
    if nodes.len() > 0 {
        lemma_statement_extends_scope(nodes[0], st);
        match after_statement(nodes[0], st) {
            Ok(st1) => {
                lemma_nodes_extend_scope(nodes.drop_first(), st1);
                lemma_extends_chain(st, st1, end_of(after_nodes(nodes.drop_first(), st1)));
            },
            Err(_) => {},
        }
    }
}

/// A loop leaves the scope as it was, whether it ends well or in an error.
pub proof fn lemma_loop_keeps_scope(
    items: Seq<ObjectView>,
    variable: Seq<char>,
    body: Seq<NodeView>,
    st: StateView,
)
    ensures
        same_scope(st, end_of(after_loop(items, variable, body, st))),
    decreases body, items.len(),
{
    if items.len() > 0 {
        let inner = st.bind(variable, items[0]);
        lemma_nodes_extend_scope(body, inner);
        assert(inner.scope.subrange(0, st.scope.len() as int) =~= st.scope);
        let ran = end_of(after_nodes(body, inner));
        lemma_cut_restores(st, inner, ran);
        match after_nodes(body, inner) {
            Ok(ran) => {
                lemma_loop_keeps_scope(
                    items.drop_first(),
                    variable,
                    body,
                    ran.cut(st.scope.len() as int),
                );
            },
            Err(_) => {},
        }
    }
}

/// Scope isolation. What the runs of a loop bind is gone when the loop
/// ends, whether it ends well or in an error: the scope after the loop is
/// the scope before it. Nor does one run see what another bound: after
/// each run the next one starts from the scope that stood before the loop,
/// with the variable bound to its item.
pub proof fn lemma_scope_isolation(node: NodeView, st: StateView)
    requires
        node.statement is ForLoop,
    ensures
        same_scope(st, end_of(after_statement(node, st))),
        forall|items: Seq<ObjectView>, start: StateView|
            items.len() > 0 ==> #[trigger] after_loop(
                items,
                node.statement->ForLoop_ident.fragment,
                node.children,
                start,
            ) == match after_nodes(
                node.children,
                start.bind(node.statement->ForLoop_ident.fragment, items[0]),
            ) {
                Ok(ran) => after_loop(
                    items.drop_first(),
                    node.statement->ForLoop_ident.fragment,
                    node.children,
                    StateView { scope: start.scope, ..ran },
                ),
                Err((e, at)) => Err((e, StateView { scope: start.scope, ..at })),
            },
{
    let variable = node.statement->ForLoop_ident.fragment;
    let expr = node.statement->ForLoop_expr;
    lemma_expression_keeps_scope(expr, st);
    match value_of(expr, st) {
        Ok((v, st1)) => {
            if let Some(items) = v.items() {
                lemma_loop_keeps_scope(items, variable, node.children, st1);
            }
        },
        Err(_) => {},
    }
    assert forall|items: Seq<ObjectView>, start: StateView| items.len() > 0 implies #[trigger] after_loop(
        items,
        variable,
        node.children,
        start,
    ) == match after_nodes(node.children, start.bind(variable, items[0])) {
        Ok(ran) => after_loop(
            items.drop_first(),
            variable,
            node.children,
            StateView { scope: start.scope, ..ran },
        ),
        Err((e, at)) => Err((e, StateView { scope: start.scope, ..at })),
    } by {
        let inner = start.bind(variable, items[0]);
        lemma_nodes_extend_scope(node.children, inner);
        assert(inner.scope.subrange(0, start.scope.len() as int) =~= start.scope);
        let ran = end_of(after_nodes(node.children, inner));
        lemma_cut_restores(start, inner, ran);
    }
}

/// Cutting back to the length of a scope gives that scope again, where
/// only bindings were added behind it.
pub proof fn lemma_cut_restores(start: StateView, inner: StateView, ran: StateView)
    requires
        start.scope.len() <= inner.scope.len(),
        inner.scope.subrange(0, start.scope.len() as int) == start.scope,
        extends(inner, ran),
    ensures
        ran.cut(start.scope.len() as int) == (StateView { scope: start.scope, ..ran }),
{
    let n = start.scope.len() as int;
    assert(ran.scope.subrange(0, n) =~= ran.scope.subrange(0, inner.scope.len() as int).subrange(
        0,
        n,
    ));
}

/// Statements are evaluated one after the other: evaluating `first` and
/// then `second` is evaluating `second` in the state that `first` left, and
/// an error in `first` is the error of the whole.
pub proof fn lemma_nodes_in_sequence(first: Seq<NodeView>, second: Seq<NodeView>, st: StateView)
    ensures
        after_nodes(first + second, st) == match after_nodes(first, st) {
            Ok(between) => after_nodes(second, between),
            Err(e) => Err(e),
        },
    decreases first.len(),
{
    if first.len() == 0 {
        assert(first + second =~= second);
    } else {
        let all = first + second;
        assert(all[0] == first[0]);
        assert(all.drop_first() =~= first.drop_first() + second);
        match after_statement(first[0], st) {
            Ok(st1) => {
                lemma_nodes_in_sequence(first.drop_first(), second, st1);
            },
            Err(_) => {},
        }
    }
}

/// Binding order. A binding is seen by what is evaluated after it and by
/// nothing before it: the statements before it leave the state that they
/// leave without it, and fail as they fail without it; the statements
/// after it start in a state in which the name is bound to the value, and
/// which the binding has not changed otherwise.
pub proof fn lemma_binding_order(
    before: Seq<NodeView>,
    binding: NodeView,
    after: Seq<NodeView>,
    st: StateView,
)
    requires
        binding.statement is Binding,
    ensures
        after_nodes(before + seq![binding] + after, st) == match after_nodes(before, st) {
            Ok(reached) => match value_of(binding.statement->Binding_1, reached) {
                Ok((value, evaluated)) => after_nodes(
                    after,
                    evaluated.bind(binding.statement->Binding_0.fragment, value),
                ),
                Err(e) => Err(e),
            },
            Err(e) => Err(e),
        },
        forall|value: ObjectView, evaluated: StateView|
            (#[trigger] evaluated.bind(binding.statement->Binding_0.fragment, value)).lookup(
                binding.statement->Binding_0.fragment,
            ) == Some(value),
{
    let name = binding.statement->Binding_0.fragment;
    assert(before + seq![binding] + after =~= before + (seq![binding] + after));
    lemma_nodes_in_sequence(before, seq![binding] + after, st);
    match after_nodes(before, st) {
        Ok(reached) => {
            lemma_nodes_in_sequence(seq![binding], after, reached);
            let one = seq![binding];
            assert(one[0] == binding);
            assert(one.drop_first() =~= Seq::<NodeView>::empty());
            match after_statement(binding, reached) {
                Ok(bound) => {
                    assert(after_nodes(one.drop_first(), bound) == Ok::<StateView, (ErrorView, StateView)>(
                        bound,
                    ));
                    assert(after_nodes(one, reached) == Ok::<StateView, (ErrorView, StateView)>(bound));
                },
                Err(e) => {
                    assert(after_nodes(one, reached) == Err::<StateView, (ErrorView, StateView)>(e));
                },
            }
        },
        Err(_) => {},
    }
    assert forall|value: ObjectView, evaluated: StateView|
        (#[trigger] evaluated.bind(name, value)).lookup(name) == Some(value) by {
        let scope = evaluated.bind(name, value).scope;
        assert(scope.last() == (name, value));
    }
}

/// Comment suppression. A comment changes nothing, whatever stands under
/// it: no output is written and no name is bound.
pub proof fn lemma_comment_is_silent(node: NodeView, st: StateView)
    requires
        node.statement is Comment,
    ensures
        after_statement(node, st) == Ok::<StateView, (ErrorView, StateView)>(st),
{
}

} // verus!
