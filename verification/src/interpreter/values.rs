//! Maps hold each name once, in every value that evaluation meets.

use vstd::prelude::*;
use crate::interpreter::assoc::{first_of, last_of, same_text};
use crate::interpreter::eval::{
    after_loop,
    after_nodes,
    after_statement,
    attributes_of,
    called,
    text_of,
    value_of,
    values_of,
};
use crate::interpreter::html::{open_tag_text, set_attribute};
use crate::interpreter::laws::{lemma_expression_keeps_scope, lemma_statement_extends_scope};
use crate::interpreter::models::{
    bindings_view,
    lemma_array_object_view,
    lemma_listing_object_view,
    lemma_map_object_view,
    objects_view,
    Object,
    ObjectView,
};
use crate::interpreter::program::InstructionView;
use crate::interpreter::state::{contents_of, member, string_objects, StateView};
use crate::parser::chars::{lemma_run_end_bounds, run_end, CharClass};
use crate::parser::models::{ExpressionView, NodeView, StatementView, StringTokenView};
use crate::parser::span::SpanView;

verus! {

/// Whether no name stands twice in `entries`.
pub open spec fn unique_names(entries: Seq<(Seq<char>, ObjectView)>) -> bool {
    forall|a: int, b: int|
        0 <= a < b < entries.len() ==> (#[trigger] entries[a]).0 != (#[trigger] entries[b]).0
}

/// Whether every map in `value` holds each name once.
pub open spec fn well_formed(value: ObjectView) -> bool
    decreases value,
{
    match value {
        ObjectView::Array(items) => all_well_formed(items),
        ObjectView::Listing(items) => all_well_formed(items),
        ObjectView::Dict(entries) => unique_names(entries) && entries_well_formed(entries),
        _ => true,
    }
}

pub open spec fn all_well_formed(items: Seq<ObjectView>) -> bool
    decreases items,
{
    items.len() == 0 || (well_formed(items[0]) && all_well_formed(items.drop_first()))
}

pub open spec fn entries_well_formed(entries: Seq<(Seq<char>, ObjectView)>) -> bool
    decreases entries,
{
    entries.len() == 0 || (well_formed(entries[0].1) && entries_well_formed(entries.drop_first()))
}

proof fn lemma_item_well_formed(items: Seq<ObjectView>, k: int)
    requires
        all_well_formed(items),
        0 <= k < items.len(),
    ensures
        well_formed(items[k]),
    decreases items.len(),
{
    if k > 0 {
        lemma_item_well_formed(items.drop_first(), k - 1);
    }
}

proof fn lemma_push_well_formed(items: Seq<ObjectView>, v: ObjectView)
    requires
        all_well_formed(items),
        well_formed(v),
    ensures
        all_well_formed(items.push(v)),
    decreases items.len(),
{
    let all = items.push(v);
    if items.len() > 0 {
        lemma_push_well_formed(items.drop_first(), v);
        assert(all.drop_first() =~= items.drop_first().push(v));
        assert(all[0] == items[0]);
    } else {
        assert(all.drop_first() =~= Seq::<ObjectView>::empty());
        assert(all[0] == v);
        assert(all_well_formed(all.drop_first()));
    }
}

proof fn lemma_entry_well_formed(entries: Seq<(Seq<char>, ObjectView)>, k: int)
    requires
        entries_well_formed(entries),
        0 <= k < entries.len(),
    ensures
        well_formed(entries[k].1),
    decreases entries.len(),
{
    if k > 0 {
        lemma_entry_well_formed(entries.drop_first(), k - 1);
    }
}

proof fn lemma_push_entry_well_formed(entries: Seq<(Seq<char>, ObjectView)>, e: (
    Seq<char>,
    ObjectView,
))
    requires
        entries_well_formed(entries),
        well_formed(e.1),
    ensures
        entries_well_formed(entries.push(e)),
    decreases entries.len(),
{
    let all = entries.push(e);
    if entries.len() > 0 {
        lemma_push_entry_well_formed(entries.drop_first(), e);
        assert(all.drop_first() =~= entries.drop_first().push(e));
        assert(all[0] == entries[0]);
    } else {
        assert(all.drop_first() =~= Seq::<(Seq<char>, ObjectView)>::empty());
        assert(all[0] == e);
        assert(entries_well_formed(all.drop_first()));
    }
}

proof fn lemma_prefix_well_formed(entries: Seq<(Seq<char>, ObjectView)>, n: int)
    requires
        entries_well_formed(entries),
        0 <= n <= entries.len(),
    ensures
        entries_well_formed(entries.subrange(0, n)),
    decreases n,
{
    if n > 0 {
        lemma_prefix_well_formed(entries.drop_first(), n - 1);
        assert(entries.subrange(0, n).drop_first() =~= entries.drop_first().subrange(0, n - 1));
    }
}

proof fn lemma_first_of_well_formed(entries: Seq<(Seq<char>, ObjectView)>, name: Seq<char>)
    requires
        entries_well_formed(entries),
    ensures
        first_of(entries, name) matches Some(v) ==> well_formed(v),
    decreases entries.len(),
{
    if entries.len() > 0 && entries[0].0 != name {
        lemma_first_of_well_formed(entries.drop_first(), name);
    }
}

proof fn lemma_last_of_well_formed(entries: Seq<(Seq<char>, ObjectView)>, name: Seq<char>)
    requires
        entries_well_formed(entries),
    ensures
        last_of(entries, name) matches Some(v) ==> well_formed(v),
    decreases entries.len(),
{
    if entries.len() > 0 {
        if entries.last().0 == name {
            lemma_entry_well_formed(entries, entries.len() - 1);
        } else {
            lemma_prefix_well_formed(entries, entries.len() - 1);
            assert(entries.drop_last() =~= entries.subrange(0, entries.len() - 1));
            lemma_last_of_well_formed(entries.drop_last(), name);
        }
    }
}

proof fn lemma_strings_well_formed(contents: Seq<Seq<char>>)
    ensures
        all_well_formed(string_objects(contents)),
    decreases contents.len(),
{
    let all = string_objects(contents);
    if contents.len() > 0 {
        lemma_strings_well_formed(contents.drop_first());
        assert(all.drop_first() =~= string_objects(contents.drop_first()));
        assert(all[0] == ObjectView::String(contents[0]));
        assert(well_formed(all[0]));
        assert(all_well_formed(all.drop_first()));
    } else {
        assert(all.len() == 0);
    }
}

proof fn lemma_member_well_formed(value: ObjectView, s: Seq<char>, d: int)
    requires
        well_formed(value),
    ensures
        member(value, s, d) matches Ok(v) ==> well_formed(v),
    decreases s.len() - d,
{
    if 0 <= d < s.len() {
        let e = run_end(s, CharClass::NotDot, d + 1);
        lemma_run_end_bounds(s, CharClass::NotDot, d + 1);
        match value {
            ObjectView::Dict(entries) => {
                lemma_first_of_well_formed(entries, s.subrange(d + 1, e));
                match first_of(entries, s.subrange(d + 1, e)) {
                    Some(v) => {
                        lemma_member_well_formed(v, s, e);
                    },
                    None => {},
                }
            },
            _ => {},
        }
    }
}

/// Whether every value that the state binds is well formed.
pub open spec fn scope_well_formed(st: StateView) -> bool {
    entries_well_formed(st.scope)
}

/// The value of an expression is well formed where the values in scope
/// are.
pub proof fn lemma_value_well_formed(e: ExpressionView, st: StateView)
    requires
        scope_well_formed(st),
    ensures
        value_of(e, st) matches Ok((v, after)) ==> well_formed(v) && scope_well_formed(after),
    decreases e, 1nat,
{
    lemma_expression_keeps_scope(e, st);
    match e {
        ExpressionView::Reference(name) => {
            let s = name.fragment;
            let d = run_end(s, CharClass::NotDot, 0);
            lemma_run_end_bounds(s, CharClass::NotDot, 0);
            lemma_last_of_well_formed(st.scope, s.subrange(0, d));
            match st.lookup(s.subrange(0, d)) {
                Some(v) => {
                    lemma_member_well_formed(v, s, d);
                },
                None => {},
            }
        },
        ExpressionView::GlobPattern(pattern) => {
            match st.glob(pattern.fragment) {
                Ok(matches) => {
                    lemma_strings_well_formed(contents_of(matches));
                },
                Err(_) => {},
            }
        },
        ExpressionView::Array(items) => {
            lemma_values_well_formed(items, st, Seq::empty());
        },
        ExpressionView::FunctionCall { .. } => {
            lemma_called_well_formed(e, st, Seq::empty(), false);
        },
        ExpressionView::Index(left, right) => {
            lemma_value_well_formed(*left, st);
            match value_of(*left, st) {
                Ok((ObjectView::Dict(entries), _)) => {
                    if let ExpressionView::Reference(key) = *right {
                        lemma_first_of_well_formed(entries, key.fragment);
                    }
                },
                Ok((ObjectView::String(s), st1)) => {
                    if *right is FunctionCall {
                        lemma_called_well_formed(
                            *right,
                            st1,
                            seq![("$self"@, ObjectView::String(s))],
                            true,
                        );
                    }
                },
                _ => {},
            }
        },
        _ => {},
    }
}

/// What a function returns is a string, which is well formed.
proof fn lemma_called_well_formed(
    call: ExpressionView,
    st: StateView,
    first: Seq<(Seq<char>, ObjectView)>,
    as_member: bool,
)
    ensures
        called(call, st, first, as_member) matches Ok((v, _)) ==> v is String,
{
}

proof fn lemma_values_well_formed(items: Seq<ExpressionView>, st: StateView, done: Seq<ObjectView>)
    requires
        scope_well_formed(st),
        all_well_formed(done),
    ensures
        values_of(items, st, done) matches Ok((values, after)) ==> all_well_formed(values)
            && scope_well_formed(after),
    decreases items, 1nat,
{
    if items.len() > 0 {
        lemma_value_well_formed(items[0], st);
        match value_of(items[0], st) {
            Ok((v, st1)) => {
                lemma_push_well_formed(done, v);
                lemma_values_well_formed(items.drop_first(), st1, done.push(v));
            },
            Err(_) => {},
        }
    }
}

/// The values in scope stay well formed: where every value that is bound
/// before a statement is well formed, so is every value bound after it.
pub proof fn lemma_scope_stays_well_formed(node: NodeView, st: StateView)
    requires
        scope_well_formed(st),
    ensures
        after_statement(node, st) matches Ok(after) ==> scope_well_formed(after),
    decreases node, 0nat,
{
    lemma_statement_extends_scope(node, st);
    match node.statement {
        StatementView::Element(el) => {
            match after_statement(node, st) {
                Ok(after) => {
                    lemma_element_scope(node, st);
                },
                Err(_) => {},
            }
        },
        StatementView::Expression(e) => {
            lemma_value_well_formed(e, st);
            match value_of(e, st) {
                Ok((v, st1)) => {
                    if let Some(t) = v.text() {
                        match st1.emit(InstructionView::Text(t)) {
                            Ok(st2) => {
                                lemma_nodes_keep_scope_well_formed(node.children, st2);
                            },
                            Err(_) => {},
                        }
                    }
                },
                Err(_) => {},
            }
        },
        StatementView::Text(tokens) => {
            match after_statement(node, st) {
                Ok(after) => {
                    lemma_text_scope(node, st);
                },
                Err(_) => {},
            }
        },
        StatementView::Binding(name, e) => {
            lemma_value_well_formed(e, st);
            match value_of(e, st) {
                Ok((v, st1)) => {
                    lemma_push_entry_well_formed(st1.scope, (name.fragment, v));
                },
                Err(_) => {},
            }
        },
        StatementView::Comment(_) => {},
        StatementView::ForLoop { ident, expr } => {
            lemma_value_well_formed(expr, st);
            match value_of(expr, st) {
                Ok((v, st1)) => {
                    if let Some(items) = v.items() {
                        lemma_loop_keeps_scope_well_formed(items, ident.fragment, node.children, st1);
                    }
                },
                Err(_) => {},
            }
        },
    }
}

proof fn lemma_element_scope(node: NodeView, st: StateView)
    requires
        scope_well_formed(st),
        node.statement is Element,
        after_statement(node, st) is Ok,
    ensures
        scope_well_formed(after_statement(node, st)->Ok_0),
    decreases node, 0nat, 0nat,
{
    let el = node.statement->Element_0;
    let attributes = attributes_of(el.attributes, st, Seq::empty())->Ok_0;
    lemma_attributes_scope(el.attributes, st, Seq::empty());
    let open = InstructionView::OpenTag(
        open_tag_text(el.ident.fragment, attributes.0),
    );
    let st2 = attributes.1.emit(open)->Ok_0;
    lemma_nodes_keep_scope_well_formed(node.children, st2);
}

proof fn lemma_attributes_scope(
    attributes: Seq<(SpanView, ExpressionView)>,
    st: StateView,
    done: Seq<(Seq<char>, Seq<char>)>,
)
    ensures
        attributes_of(attributes, st, done) matches Ok((_, after))
            ==> after.scope == st.scope,
    decreases attributes.len(),
{
    if attributes.len() > 0 {
        lemma_expression_keeps_scope(attributes[0].1, st);
        match value_of(attributes[0].1, st) {
            Ok((v, st1)) => {
                if let Some(value) = v.string() {
                    lemma_attributes_scope(
                        attributes.drop_first(),
                        st1,
                        set_attribute(
                            done,
                            attributes[0].0.fragment,
                            value,
                        ),
                    );
                }
            },
            Err(_) => {},
        }
    }
}

proof fn lemma_text_scope(node: NodeView, st: StateView)
    requires
        scope_well_formed(st),
        node.statement is Text,
        after_statement(node, st) is Ok,
    ensures
        scope_well_formed(after_statement(node, st)->Ok_0),
{
    lemma_tokens_scope(node.statement->Text_0, st, Seq::empty());
}

proof fn lemma_tokens_scope(
    tokens: Seq<StringTokenView>,
    st: StateView,
    done: Seq<char>,
)
    ensures
        text_of(tokens, st, done) matches Ok((_, after)) ==> after.scope
            == st.scope,
    decreases tokens.len(),
{
    if tokens.len() > 0 {
        match tokens[0] {
            StringTokenView::Text(t) => {
                lemma_tokens_scope(tokens.drop_first(), st, done + t.fragment);
            },
            StringTokenView::Expression(e) => {
                lemma_expression_keeps_scope(e, st);
                match value_of(e, st) {
                    Ok((v, st1)) => {
                        if let Some(t) = v.text() {
                            lemma_tokens_scope(tokens.drop_first(), st1, done + t);
                        }
                    },
                    Err(_) => {},
                }
            },
        }
    }
}

/// As `lemma_scope_stays_well_formed`, for statements in sequence.
pub proof fn lemma_nodes_keep_scope_well_formed(nodes: Seq<NodeView>, st: StateView)
    requires
        scope_well_formed(st),
    ensures
        after_nodes(nodes, st) matches Ok(after) ==> scope_well_formed(after),
    decreases nodes, 0nat,
{
    if nodes.len() > 0 {
        lemma_scope_stays_well_formed(nodes[0], st);
        match after_statement(nodes[0], st) {
            Ok(st1) => {
                lemma_nodes_keep_scope_well_formed(nodes.drop_first(), st1);
            },
            Err(_) => {},
        }
    }
}

proof fn lemma_loop_keeps_scope_well_formed(
    items: Seq<ObjectView>,
    variable: Seq<char>,
    body: Seq<NodeView>,
    st: StateView,
)
    requires
        scope_well_formed(st),
        all_well_formed(items),
    ensures
        after_loop(items, variable, body, st) matches Ok(after) ==> scope_well_formed(after),
    decreases body, items.len(),
{
    if items.len() > 0 {
        let inner = st.bind(variable, items[0]);
        lemma_push_entry_well_formed(st.scope, (variable, items[0]));
        lemma_nodes_keep_scope_well_formed(body, inner);
        match after_nodes(body, inner) {
            Ok(ran) => {
                let n = st.scope.len() as int;
                if n <= ran.scope.len() {
                    lemma_prefix_well_formed(ran.scope, n);
                }
                lemma_loop_keeps_scope_well_formed(
                    items.drop_first(),
                    variable,
                    body,
                    ran.cut(n),
                );
            },
            Err(_) => {},
        }
    }
}

/// Whether no name stands twice in `entries`.
pub fn has_unique_names(entries: &Vec<(String, Object)>) -> (r: bool)
    ensures
        r == unique_names(bindings_view(entries@)),
{
    let ghost all = bindings_view(entries@);
    let mut b: usize = 0;
    while b < entries.len()
        invariant
            b <= entries.len(),
            all == bindings_view(entries@),
            forall|x: int, y: int| 0 <= x < y < b ==> (#[trigger] all[x]).0 != (#[trigger] all[y]).0,
        decreases entries.len() - b,
    {
        let mut a: usize = 0;
        while a < b
            invariant
                a <= b < entries.len(),
                all == bindings_view(entries@),
                forall|x: int| 0 <= x < a ==> (#[trigger] all[x]).0 != all[b as int].0,
            decreases b - a,
        {
            if same_text(entries[a].0.as_str(), entries[b].0.as_str()) {
                assert(all[a as int].0 == all[b as int].0);
                return false;
            }
            a = a + 1;
        }
        b = b + 1;
    }
    true
}

/// Whether every map in `value` holds each name once.
#[verifier::loop_isolation(false)]
pub fn is_well_formed(value: &Object) -> (r: bool)
    ensures
        r == well_formed(value@),
    decreases value,
{
    match value {
        Object::Array(items) | Object::Listing(items) => {
            proof {
                lemma_array_object_view(*items);
                lemma_listing_object_view(*items);
            }
            let ghost all = objects_view(items@);
            let mut k: usize = 0;
            proof {
                assert(all.subrange(0, 0) =~= Seq::<ObjectView>::empty());
            }
            while k < items.len()
                invariant
                    k <= items.len(),
                    all_well_formed(all.subrange(0, k as int)),
                decreases items.len() - k,
            {
                if !is_well_formed(&items[k]) {
                    proof {
                        if all_well_formed(all) {
                            lemma_item_well_formed(all, k as int);
                        }
                    }
                    return false;
                }
                proof {
                    lemma_push_well_formed(all.subrange(0, k as int), all[k as int]);
                    assert(all.subrange(0, k as int).push(all[k as int]) =~= all.subrange(
                        0,
                        k as int + 1,
                    ));
                }
                k = k + 1;
            }
            proof {
                assert(all.subrange(0, k as int) =~= all);
            }
            true
        },
        Object::Dict(entries) => {
            proof {
                lemma_map_object_view(*entries);
            }
            if !has_unique_names(entries) {
                return false;
            }
            let ghost all = bindings_view(entries@);
            let mut k: usize = 0;
            proof {
                assert(all.subrange(0, 0) =~= Seq::<(Seq<char>, ObjectView)>::empty());
            }
            while k < entries.len()
                invariant
                    k <= entries.len(),
                    entries_well_formed(all.subrange(0, k as int)),
                decreases entries.len() - k,
            {
                if !is_well_formed(&entries[k].1) {
                    proof {
                        if entries_well_formed(all) {
                            lemma_entry_well_formed(all, k as int);
                        }
                    }
                    return false;
                }
                proof {
                    lemma_push_entry_well_formed(all.subrange(0, k as int), all[k as int]);
                    assert(all.subrange(0, k as int).push(all[k as int]) =~= all.subrange(
                        0,
                        k as int + 1,
                    ));
                }
                k = k + 1;
            }
            proof {
                assert(all.subrange(0, k as int) =~= all);
            }
            true
        },
        _ => true,
    }
}

} // verus!
