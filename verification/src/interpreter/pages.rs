//! The pages are a mapping: no two of them stand at one path.

use vstd::prelude::*;
use crate::interpreter::builtins::{invoke, optional, page_head, with_last};
use crate::interpreter::eval::{
    after_loop,
    after_nodes,
    after_statement,
    attributes_of,
    call_scope,
    called,
    text_of,
    value_of,
    values_of,
};
use crate::interpreter::html::{close_tag_text, open_tag_text, set_attribute};
use crate::interpreter::models::{Builtin, ObjectView};
use crate::interpreter::program::{append_to_last, without_path, InstructionView, PageView};
use crate::interpreter::state::StateView;
use crate::parser::models::{ExpressionView, NodeView, StatementView, StringTokenView};
use crate::parser::span::SpanView;

verus! {

/// Whether no two of `pages` stand at one path.
pub open spec fn unique_paths(pages: Seq<PageView>) -> bool {
    forall|a: int, b: int|
        0 <= a < b < pages.len() ==> (#[trigger] pages[a]).path != (#[trigger] pages[b]).path
}

/// What is left of the pages without those at `path` are pages that were
/// there, none of them at `path`, and none of them twice if none was.
proof fn lemma_without_path(pages: Seq<PageView>, path: Seq<char>)
    ensures
        forall|k: int|
            0 <= k < without_path(pages, path).len() ==> (#[trigger] without_path(
                pages,
                path,
            )[k]).path != path && exists|j: int|
                0 <= j < pages.len() && pages[j] == without_path(pages, path)[k],
        unique_paths(pages) ==> unique_paths(without_path(pages, path)),
    decreases pages.len(),
{
    if pages.len() > 0 {
        let rest = pages.drop_first();
        let kept = without_path(rest, path);
        let all = without_path(pages, path);
        lemma_without_path(rest, path);
        assert forall|k: int| 0 <= k < all.len() implies (#[trigger] all[k]).path != path
            && exists|j: int| 0 <= j < pages.len() && pages[j] == all[k] by {
            if pages[0].path == path {
                let j = choose|j: int| 0 <= j < rest.len() && rest[j] == kept[k];
                assert(pages[j + 1] == all[k]);
            } else if k == 0 {
                assert(pages[0] == all[0]);
            } else {
                assert(all[k] == kept[k - 1]);
                let j = choose|j: int| 0 <= j < rest.len() && rest[j] == kept[k - 1];
                assert(pages[j + 1] == all[k]);
            }
        }
        if unique_paths(pages) {
            assert(unique_paths(rest)) by {
                assert forall|a: int, b: int| 0 <= a < b < rest.len() implies (#[trigger] rest[a]).path
                    != (#[trigger] rest[b]).path by {
                    assert(rest[a] == pages[a + 1]);
                    assert(rest[b] == pages[b + 1]);
                }
            }
            if pages[0].path != path {
                assert forall|a: int, b: int| 0 <= a < b < all.len() implies (#[trigger] all[a]).path
                    != (#[trigger] all[b]).path by {
                    assert(all[b] == kept[b - 1]);
                    if a == 0 {
                        let j = choose|j: int| 0 <= j < rest.len() && rest[j] == kept[b - 1];
                        assert(pages[j + 1] == all[b]);
                        assert(pages[0] == all[0]);
                    } else {
                        assert(all[a] == kept[a - 1]);
                    }
                }
            }
        }
    }
}

proof fn lemma_open_page_unique(st: StateView, path: Seq<char>)
    requires
        unique_paths(st.pages),
    ensures
        unique_paths(st.open_page(path).pages),
{
    lemma_without_path(st.pages, path);
    let kept = without_path(st.pages, path);
    let pages = st.open_page(path).pages;
    assert forall|a: int, b: int| 0 <= a < b < pages.len() implies (#[trigger] pages[a]).path
        != (#[trigger] pages[b]).path by {
        assert(pages[a] == kept[a]);
        if b < kept.len() {
            assert(pages[b] == kept[b]);
        }
    }
}

proof fn lemma_emit_unique(st: StateView, instruction: InstructionView)
    requires
        unique_paths(st.pages),
    ensures
        st.emit(instruction) matches Ok(after) ==> unique_paths(after.pages),
{
    if st.pages.len() > 0 {
        let after = append_to_last(st.pages, instruction);
        assert forall|a: int, b: int| 0 <= a < b < after.len() implies (#[trigger] after[a]).path
            != (#[trigger] after[b]).path by {
            assert(after[a].path == st.pages[a].path);
            assert(after[b].path == st.pages[b].path);
        }
    }
}

proof fn lemma_write_unique(st: StateView, instruction: InstructionView)
    requires
        unique_paths(st.pages),
        st.pages.len() > 0,
    ensures
        unique_paths(with_last(st, instruction).pages),
        with_last(st, instruction).pages.len() > 0,
{
    lemma_emit_unique(st, instruction);
}

proof fn lemma_head_unique(st: StateView, title: Option<Seq<char>>, stylesheet: Option<Seq<char>>)
    requires
        unique_paths(st.pages),
        st.pages.len() > 0,
    ensures
        unique_paths(page_head(st, title, stylesheet).pages),
{
    let titled = match title {
        Some(t) => {
            let a = with_last(st, InstructionView::OpenTag("<title>"@));
            let b = with_last(a, InstructionView::Text(t));
            lemma_write_unique(st, InstructionView::OpenTag("<title>"@));
            lemma_write_unique(a, InstructionView::Text(t));
            lemma_write_unique(b, InstructionView::CloseTag("</title>"@));
            with_last(b, InstructionView::CloseTag("</title>"@))
        },
        None => st,
    };
    if let Some(s) = stylesheet {
        lemma_write_unique(
            titled,
            InstructionView::OpenTag("<link rel=\"stylesheet\" href=\"/"@ + s + "\">"@),
        );
    }
}

proof fn lemma_invoke_unique(
    builtin: Builtin,
    scope: Seq<(Seq<char>, ObjectView)>,
    st: StateView,
)
    requires
        unique_paths(st.pages),
    ensures
        invoke(builtin, scope, st) matches Ok((_, after)) ==> unique_paths(after.pages),
{
    match invoke(builtin, scope, st) {
        Ok((_, after)) => {
            if builtin == Builtin::Page {
                let route = crate::interpreter::assoc::last_of(scope, "route"@)->0->String_0;
                lemma_open_page_unique(st, route);
                lemma_head_unique(
                    st.open_page(route),
                    optional(scope, "title"@),
                    optional(scope, "stylesheet"@),
                );
            }
        },
        Err(_) => {},
    }
}

proof fn lemma_value_unique(e: ExpressionView, st: StateView)
    requires
        unique_paths(st.pages),
    ensures
        value_of(e, st) matches Ok((_, after)) ==> unique_paths(after.pages),
    decreases e, 1nat,
{
    match e {
        ExpressionView::Array(items) => {
            lemma_values_unique(items, st, Seq::empty());
        },
        ExpressionView::FunctionCall { .. } => {
            lemma_called_unique(e, st, Seq::empty(), false);
        },
        ExpressionView::Index(left, right) => {
            lemma_value_unique(*left, st);
            match value_of(*left, st) {
                Ok((ObjectView::String(s), st1)) => {
                    if *right is FunctionCall {
                        lemma_called_unique(
                            *right,
                            st1,
                            seq![("$self"@, ObjectView::String(s))],
                            true,
                        );
                    }
                },
                _ => {},
            }
        },
        _ => {},
    }
}

proof fn lemma_called_unique(
    call: ExpressionView,
    st: StateView,
    first: Seq<(Seq<char>, ObjectView)>,
    as_member: bool,
)
    requires
        unique_paths(st.pages),
    ensures
        called(call, st, first, as_member) matches Ok((_, after)) ==> unique_paths(after.pages),
    decreases call, 0nat,
{
    match call {
        ExpressionView::FunctionCall { ident, arguments } => {
            lemma_value_unique(*ident, st);
            match value_of(*ident, st) {
                Ok((ObjectView::BuiltinFunction(b), st1)) => {
                    lemma_arguments_unique(arguments, st1, first);
                    match call_scope(arguments, st1, first) {
                        Ok((scope, st2)) => {
                            lemma_invoke_unique(b, scope, st2);
                        },
                        Err(_) => {},
                    }
                },
                _ => {},
            }
        },
        _ => {},
    }
}

proof fn lemma_arguments_unique(
    arguments: Seq<(SpanView, ExpressionView)>,
    st: StateView,
    scope: Seq<(Seq<char>, ObjectView)>,
)
    requires
        unique_paths(st.pages),
    ensures
        call_scope(arguments, st, scope) matches Ok((_, after)) ==> unique_paths(after.pages),
    decreases arguments, 1nat,
{
    if arguments.len() > 0 {
        lemma_value_unique(arguments[0].1, st);
        match value_of(arguments[0].1, st) {
            Ok((v, st1)) => {
                lemma_arguments_unique(
                    arguments.drop_first(),
                    st1,
                    scope.push((arguments[0].0.fragment, v)),
                );
            },
            Err(_) => {},
        }
    }
}

proof fn lemma_values_unique(items: Seq<ExpressionView>, st: StateView, done: Seq<ObjectView>)
    requires
        unique_paths(st.pages),
    ensures
        values_of(items, st, done) matches Ok((_, after)) ==> unique_paths(after.pages),
    decreases items, 1nat,
{
    if items.len() > 0 {
        lemma_value_unique(items[0], st);
        match value_of(items[0], st) {
            Ok((v, st1)) => {
                lemma_values_unique(items.drop_first(), st1, done.push(v));
            },
            Err(_) => {},
        }
    }
}

proof fn lemma_text_unique(tokens: Seq<StringTokenView>, st: StateView, done: Seq<char>)
    requires
        unique_paths(st.pages),
    ensures
        text_of(tokens, st, done) matches Ok((_, after)) ==> unique_paths(after.pages),
    decreases tokens.len(),
{
    if tokens.len() > 0 {
        match tokens[0] {
            StringTokenView::Text(t) => {
                lemma_text_unique(tokens.drop_first(), st, done + t.fragment);
            },
            StringTokenView::Expression(e) => {
                lemma_value_unique(e, st);
                match value_of(e, st) {
                    Ok((v, st1)) => {
                        if let Some(t) = v.text() {
                            lemma_text_unique(tokens.drop_first(), st1, done + t);
                        }
                    },
                    Err(_) => {},
                }
            },
        }
    }
}

proof fn lemma_attributes_unique(
    attributes: Seq<(SpanView, ExpressionView)>,
    st: StateView,
    done: Seq<(Seq<char>, Seq<char>)>,
)
    requires
        unique_paths(st.pages),
    ensures
        attributes_of(attributes, st, done) matches Ok((_, after)) ==> unique_paths(after.pages),
    decreases attributes.len(),
{
    if attributes.len() > 0 {
        lemma_value_unique(attributes[0].1, st);
        match value_of(attributes[0].1, st) {
            Ok((v, st1)) => {
                if let Some(value) = v.string() {
                    lemma_attributes_unique(
                        attributes.drop_first(),
                        st1,
                        set_attribute(done, attributes[0].0.fragment, value),
                    );
                }
            },
            Err(_) => {},
        }
    }
}

/// The pages stay a mapping: where no two pages stand at one path before a
/// statement, none do after it.
pub proof fn lemma_paths_stay_unique(node: NodeView, st: StateView)
    requires
        unique_paths(st.pages),
    ensures
        after_statement(node, st) matches Ok(after) ==> unique_paths(after.pages),
    decreases node, 0nat,
{
    match node.statement {
        StatementView::Element(el) => {
            lemma_attributes_unique(el.attributes, st, Seq::empty());
            match attributes_of(el.attributes, st, Seq::empty()) {
                Ok((attributes, st1)) => {
                    let open = InstructionView::OpenTag(
                        open_tag_text(el.ident.fragment, attributes),
                    );
                    lemma_emit_unique(st1, open);
                    match st1.emit(open) {
                        Ok(st2) => {
                            lemma_nodes_keep_paths_unique(node.children, st2);
                            match after_nodes(node.children, st2) {
                                Ok(st3) => {
                                    lemma_emit_unique(
                                        st3,
                                        InstructionView::CloseTag(
                                            close_tag_text(el.ident.fragment),
                                        ),
                                    );
                                },
                                Err(_) => {},
                            }
                        },
                        Err(_) => {},
                    }
                },
                Err(_) => {},
            }
        },
        StatementView::Expression(e) => {
            lemma_value_unique(e, st);
            match value_of(e, st) {
                Ok((v, st1)) => {
                    if let Some(t) = v.text() {
                        lemma_emit_unique(st1, InstructionView::Text(t));
                        match st1.emit(InstructionView::Text(t)) {
                            Ok(st2) => {
                                lemma_nodes_keep_paths_unique(node.children, st2);
                            },
                            Err(_) => {},
                        }
                    }
                },
                Err(_) => {},
            }
        },
        StatementView::Text(tokens) => {
            lemma_text_unique(tokens, st, Seq::empty());
            match text_of(tokens, st, Seq::empty()) {
                Ok((t, st1)) => {
                    lemma_emit_unique(st1, InstructionView::Text(t));
                },
                Err(_) => {},
            }
        },
        StatementView::Binding(_, e) => {
            lemma_value_unique(e, st);
        },
        StatementView::Comment(_) => {},
        StatementView::ForLoop { ident, expr } => {
            lemma_value_unique(expr, st);
            match value_of(expr, st) {
                Ok((v, st1)) => {
                    if let Some(items) = v.items() {
                        lemma_loop_keeps_paths_unique(items, ident.fragment, node.children, st1);
                    }
                },
                Err(_) => {},
            }
        },
    }
}

/// As `lemma_paths_stay_unique`, for statements in sequence.
pub proof fn lemma_nodes_keep_paths_unique(nodes: Seq<NodeView>, st: StateView)
    requires
        unique_paths(st.pages),
    ensures
        after_nodes(nodes, st) matches Ok(after) ==> unique_paths(after.pages),
    decreases nodes, 0nat,
{
    if nodes.len() > 0 {
        lemma_paths_stay_unique(nodes[0], st);
        match after_statement(nodes[0], st) {
            Ok(st1) => {
                lemma_nodes_keep_paths_unique(nodes.drop_first(), st1);
            },
            Err(_) => {},
        }
    }
}

proof fn lemma_loop_keeps_paths_unique(
    items: Seq<ObjectView>,
    variable: Seq<char>,
    body: Seq<NodeView>,
    st: StateView,
)
    requires
        unique_paths(st.pages),
    ensures
        after_loop(items, variable, body, st) matches Ok(after) ==> unique_paths(after.pages),
    decreases body, items.len(),
{
    if items.len() > 0 {
        let inner = st.bind(variable, items[0]);
        lemma_nodes_keep_paths_unique(body, inner);
        match after_nodes(body, inner) {
            Ok(ran) => {
                lemma_loop_keeps_paths_unique(
                    items.drop_first(),
                    variable,
                    body,
                    ran.cut(st.scope.len() as int),
                );
            },
            Err(_) => {},
        }
    }
}

} // verus!
