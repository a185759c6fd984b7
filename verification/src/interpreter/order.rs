//! What the order of a listing changes, and what it does not.

use vstd::prelude::*;
use vstd::multiset::Multiset;
use crate::interpreter::error::ErrorView;
use crate::interpreter::eval::{
    after_loop,
    after_nodes,
    after_statement,
    attributes_of,
    text_of,
    value_of,
    values_of,
};
use crate::interpreter::html::{close_tag_text, open_tag_text, set_attribute, valid_tag};
use crate::interpreter::laws::{
    end_of,
    lemma_nodes_extend_scope,
    lemma_statement_extends_scope,
};
use crate::interpreter::models::ObjectView;
use crate::interpreter::program::{InstructionView, PageView};
use crate::interpreter::state::{contents_of, string_objects, StateView};
use crate::parser::models::{
    ExpressionView,
    NodeView,
    StatementView,
    StringTokenView,
};
use crate::parser::span::SpanView;

verus! {

/// Whether the expression `e` calls nothing and holds no glob pattern.
pub open spec fn quiet(e: ExpressionView) -> bool
    decreases e,
{
    match e {
        ExpressionView::FunctionCall { .. } => false,
        ExpressionView::GlobPattern(_) => false,
        ExpressionView::Array(items) => quiet_items(items),
        ExpressionView::Index(left, right) => quiet(*left) && quiet(*right),
        _ => true,
    }
}

pub open spec fn quiet_items(items: Seq<ExpressionView>) -> bool
    decreases items,
{
    items.len() == 0 || (quiet(items[0]) && quiet_items(items.drop_first()))
}

pub open spec fn quiet_named(items: Seq<(SpanView, ExpressionView)>) -> bool
    decreases items.len(),
{
    items.len() == 0 || (quiet(items[0].1) && quiet_named(items.drop_first()))
}

pub open spec fn quiet_tokens(tokens: Seq<StringTokenView>) -> bool
    decreases tokens.len(),
{
    tokens.len() == 0 || ((match tokens[0] {
        StringTokenView::Text(_) => true,
        StringTokenView::Expression(e) => quiet(e),
    }) && quiet_tokens(tokens.drop_first()))
}

/// Whether the statement of `node`, and the statements under it, call
/// nothing and hold no glob pattern.
pub open spec fn quiet_node(node: NodeView) -> bool
    decreases node,
{
    match node.statement {
        StatementView::Element(el) => quiet_named(el.attributes) && quiet_nodes(node.children),
        StatementView::Expression(e) => quiet(e) && quiet_nodes(node.children),
        StatementView::Text(tokens) => quiet_tokens(tokens),
        StatementView::Binding(_, e) => quiet(e),
        StatementView::Comment(_) => true,
        StatementView::ForLoop { ident: _, expr } => quiet(expr) && quiet_nodes(node.children),
    }
}

pub open spec fn quiet_nodes(nodes: Seq<NodeView>) -> bool
    decreases nodes,
{
    nodes.len() == 0 || (quiet_node(nodes[0]) && quiet_nodes(nodes.drop_first()))
}

/// The state `st` with no page written and no pattern known, and with
/// output free to stand outside a page.
pub open spec fn bare(st: StateView) -> StateView {
    StateView {
        scope: st.scope,
        pages: Seq::empty(),
        grouped: false,
        files: st.files,
        globs: Seq::empty(),
        pwd: st.pwd,
    }
}

/// Whether output can be written in `st`.
pub open spec fn writable(st: StateView) -> bool {
    st.pages.len() > 0 || !st.grouped
}

/// The instructions of the last page, where there is a page.
pub open spec fn last_program(pages: Seq<PageView>) -> Seq<InstructionView> {
    if pages.len() == 0 {
        Seq::empty()
    } else {
        pages.last().program
    }
}

/// The pages after the instructions `out` are written in order.
pub open spec fn appended(pages: Seq<PageView>, out: Seq<InstructionView>) -> Seq<PageView> {
    if out.len() == 0 {
        pages
    } else if pages.len() == 0 {
        seq![PageView { path: Seq::empty(), program: out }]
    } else {
        pages.drop_last().push(
            PageView { path: pages.last().path, program: pages.last().program + out },
        )
    }
}

/// The state `st` after what led from a bare state to `ran`: the scope is
/// that of `ran`, and what `ran` wrote is written behind the pages of `st`.
pub open spec fn carried(st: StateView, ran: StateView) -> StateView {
    StateView {
        scope: ran.scope,
        pages: appended(st.pages, last_program(ran.pages)),
        grouped: st.grouped,
        files: st.files,
        globs: st.globs,
        pwd: st.pwd,
    }
}

pub open spec fn carried_result(
    st: StateView,
    r: Result<StateView, (ErrorView, StateView)>,
) -> Result<StateView, (ErrorView, StateView)> {
    match r {
        Ok(ran) => Ok(carried(st, ran)),
        Err((e, ran)) => Err((e, carried(st, ran))),
    }
}

proof fn lemma_appended_twice(
    pages: Seq<PageView>,
    a: Seq<InstructionView>,
    b: Seq<InstructionView>,
)
    ensures
        appended(appended(pages, a), b) == appended(pages, a + b),
        last_program(appended(pages, a)) == last_program(pages) + a,
{
    if a.len() == 0 {
        assert(a + b =~= b);
        assert(last_program(pages) + a =~= last_program(pages));
    } else if b.len() == 0 {
        assert(a + b =~= a);
    } else if pages.len() == 0 {
        let one = appended(pages, a);
        assert(one.drop_last() =~= Seq::<PageView>::empty());
        assert(appended(one, b) =~= appended(pages, a + b));
        assert(last_program(pages) + a =~= a);
    } else {
        let one = appended(pages, a);
        assert(one.drop_last() =~= pages.drop_last());
        assert((pages.last().program + a) + b =~= pages.last().program + (a + b));
    }
}

proof fn lemma_carried_twice(st: StateView, a: StateView, b: StateView)
    ensures
        carried(carried(st, a), b) == carried(st, carried(a, b)),
{
    lemma_appended_twice(st.pages, last_program(a.pages), last_program(b.pages));
    lemma_appended_twice(a.pages, Seq::empty(), last_program(b.pages));
    lemma_appended_twice(a.pages, last_program(b.pages), Seq::empty());
}

proof fn lemma_emit_carried(st: StateView, instruction: InstructionView)
    requires
        writable(st),
    ensures
        bare(st).emit(instruction) is Ok,
        st.emit(instruction) == Ok::<StateView, ErrorView>(
            carried(st, bare(st).emit(instruction)->Ok_0),
        ),
{
    let ran = bare(st).emit(instruction)->Ok_0;
    assert(last_program(ran.pages) =~= seq![instruction]);
    if st.pages.len() > 0 {
        assert(st.pages.last().program.push(instruction) =~= st.pages.last().program + seq![
            instruction,
        ]);
    }
}

/// A quiet expression changes nothing, and its value depends on the scope
/// and the files alone.
proof fn lemma_quiet_value(e: ExpressionView, st: StateView)
    requires
        quiet(e),
    ensures
        value_of(e, st) == match value_of(e, bare(st)) {
            Ok((v, _)) => Ok::<(ObjectView, StateView), (ErrorView, StateView)>((v, st)),
            Err((x, _)) => Err((x, st)),
        },
    decreases e,
{
    match e {
        ExpressionView::Array(items) => {
            lemma_quiet_values(items, st, Seq::empty());
            match values_of(items, bare(st), Seq::empty()) {
                Ok((values, _)) => {
                    assert(value_of(e, st) == Ok::<(ObjectView, StateView), (ErrorView, StateView)>(
                        (ObjectView::Array(values), st),
                    ));
                },
                Err(_) => {},
            }
        },
        ExpressionView::Index(left, right) => {
            lemma_quiet_value(*left, st);
            assert(quiet(*right));
        },
        _ => {},
    }
}

proof fn lemma_quiet_values(items: Seq<ExpressionView>, st: StateView, done: Seq<ObjectView>)
    requires
        quiet_items(items),
    ensures
        values_of(items, st, done) == match values_of(items, bare(st), done) {
            Ok((v, _)) => Ok::<(Seq<ObjectView>, StateView), (ErrorView, StateView)>((v, st)),
            Err((x, _)) => Err((x, st)),
        },
    decreases items,
{
    if items.len() > 0 {
        lemma_quiet_value(items[0], st);
        lemma_quiet_value(items[0], bare(st));
        match value_of(items[0], bare(st)) {
            Ok((v, _)) => {
                lemma_quiet_values(items.drop_first(), st, done.push(v));
                lemma_quiet_values(items.drop_first(), bare(st), done.push(v));
            },
            Err(_) => {},
        }
    }
}

proof fn lemma_quiet_text(tokens: Seq<StringTokenView>, st: StateView, done: Seq<char>)
    requires
        quiet_tokens(tokens),
    ensures
        text_of(tokens, st, done) == match text_of(tokens, bare(st), done) {
            Ok((t, _)) => Ok::<(Seq<char>, StateView), (ErrorView, StateView)>((t, st)),
            Err((x, _)) => Err((x, st)),
        },
    decreases tokens.len(),
{
    if tokens.len() > 0 {
        match tokens[0] {
            StringTokenView::Text(t) => {
                lemma_quiet_text(tokens.drop_first(), st, done + t.fragment);
            },
            StringTokenView::Expression(e) => {
                lemma_quiet_value(e, st);
                lemma_quiet_value(e, bare(st));
                match value_of(e, bare(st)) {
                    Ok((v, _)) => {
                        if let Some(t) = v.text() {
                            lemma_quiet_text(tokens.drop_first(), st, done + t);
                            lemma_quiet_text(tokens.drop_first(), bare(st), done + t);
                        }
                    },
                    Err(_) => {},
                }
            },
        }
    }
}

proof fn lemma_quiet_attributes(
    attributes: Seq<(SpanView, ExpressionView)>,
    st: StateView,
    done: Seq<(Seq<char>, Seq<char>)>,
)
    requires
        quiet_named(attributes),
    ensures
        attributes_of(attributes, st, done) == match attributes_of(attributes, bare(st), done) {
            Ok((a, _)) => Ok::<(Seq<(Seq<char>, Seq<char>)>, StateView), (ErrorView, StateView)>((a, st)),
            Err((x, _)) => Err((x, st)),
        },
    decreases attributes.len(),
{
    if attributes.len() > 0 {
        lemma_quiet_value(attributes[0].1, st);
        lemma_quiet_value(attributes[0].1, bare(st));
        match value_of(attributes[0].1, bare(st)) {
            Ok((v, _)) => {
                if let Some(value) = v.string() {
                    let next = set_attribute(done, attributes[0].0.fragment, value);
                    lemma_quiet_attributes(attributes.drop_first(), st, next);
                    lemma_quiet_attributes(attributes.drop_first(), bare(st), next);
                }
            },
            Err(_) => {},
        }
    }
}

/// What stands behind a step that was carried over: the step after it can
/// be carried over from the same bare state.
proof fn lemma_carried_bare(st: StateView, ran: StateView)
    requires
        writable(st),
        ran.files == st.files,
        ran.pwd == st.pwd,
    ensures
        bare(carried(st, ran)) == bare(ran),
        writable(carried(st, ran)),
        writable(ran) || ran.grouped,
{
}

/// Children that are evaluated behind a step: where the step is carried
/// over from the bare state, so is the step with the children behind it.
proof fn lemma_then_nodes(nodes: Seq<NodeView>, st: StateView, ran: StateView)
    requires
        quiet_nodes(nodes),
        writable(st),
        ran.files == st.files,
        ran.pwd == st.pwd,
        !ran.grouped,
        ran.globs == Seq::<(Seq<char>, Result<Seq<(Seq<char>, Seq<char>)>, Seq<char>>)>::empty(),
    ensures
        after_nodes(nodes, carried(st, ran)) == carried_result(st, after_nodes(nodes, ran)),
        after_nodes(nodes, ran) matches Ok(next) ==> next.files == st.files && !next.grouped
            && next.globs == ran.globs && next.pwd == st.pwd,
    decreases nodes, 1nat,
{
    lemma_carried_bare(st, ran);
    lemma_quiet_nodes(nodes, carried(st, ran));
    lemma_quiet_nodes(nodes, ran);
    lemma_nodes_extend_scope(nodes, ran);
    lemma_nodes_extend_scope(nodes, bare(ran));
    lemma_carried_twice(st, ran, end_of(after_nodes(nodes, bare(ran))));
}

/// Output is only ever added. A quiet statement, in a state in which
/// output can be written, writes behind the pages that are there what it
/// writes from a bare state, and touches nothing that was written before;
/// it binds what it binds from a bare state, and fails where it fails from
/// a bare state.
pub proof fn lemma_quiet_statement(node: NodeView, st: StateView)
    requires
        quiet_node(node),
        writable(st),
    ensures
        after_statement(node, st) == carried_result(st, after_statement(node, bare(st))),
    decreases node, 0nat,
{
    let b = bare(st);
    match node.statement {
        StatementView::Element(el) => {
            let name = el.ident.fragment;
            lemma_quiet_attributes(el.attributes, st, Seq::empty());
            lemma_quiet_attributes(el.attributes, b, Seq::empty());
            match attributes_of(el.attributes, b, Seq::empty()) {
                Ok((attributes, _)) => {
                    if valid_tag(name) {
                        let open = InstructionView::OpenTag(open_tag_text(name, attributes));
                        let close = InstructionView::CloseTag(close_tag_text(name));
                        lemma_emit_carried(st, open);
                        let b2 = b.emit(open)->Ok_0;
                        lemma_then_nodes(node.children, st, b2);
                        match after_nodes(node.children, b2) {
                            Ok(b3) => {
                                let st3 = carried(st, b3);
                                lemma_carried_bare(st, b3);
                                lemma_emit_carried(st3, close);
                                lemma_emit_carried(b3, close);
                                let tail = bare(b3).emit(close)->Ok_0;
                                lemma_carried_twice(st, b3, tail);
                            },
                            Err(_) => {},
                        }
                    }
                },
                Err(_) => {},
            }
        },
        StatementView::Expression(e) => {
            lemma_quiet_value(e, st);
            lemma_quiet_value(e, b);
            match value_of(e, b) {
                Ok((v, _)) => {
                    if let Some(t) = v.text() {
                        let text = InstructionView::Text(t);
                        lemma_emit_carried(st, text);
                        let b2 = b.emit(text)->Ok_0;
                        lemma_then_nodes(node.children, st, b2);
                    }
                },
                Err(_) => {},
            }
        },
        StatementView::Text(tokens) => {
            lemma_quiet_text(tokens, st, Seq::empty());
            lemma_quiet_text(tokens, b, Seq::empty());
            match text_of(tokens, b, Seq::empty()) {
                Ok((t, _)) => {
                    lemma_emit_carried(st, InstructionView::Text(t));
                },
                Err(_) => {},
            }
        },
        StatementView::Binding(name, e) => {
            lemma_quiet_value(e, st);
            lemma_quiet_value(e, b);
            match value_of(e, b) {
                Ok((v, _)) => {
                    lemma_appended_twice(st.pages, Seq::empty(), Seq::empty());
                },
                Err(_) => {},
            }
        },
        StatementView::Comment(_) => {},
        StatementView::ForLoop { ident, expr } => {
            lemma_quiet_value(expr, st);
            lemma_quiet_value(expr, b);
            match value_of(expr, b) {
                Ok((v, _)) => {
                    if let Some(items) = v.items() {
                        lemma_quiet_loop(items, ident.fragment, node.children, st);
                    }
                },
                Err(_) => {},
            }
        },
    }
}

/// As `lemma_quiet_statement`, for statements in sequence: what they write
/// stands behind the pages that are there, in the order of the statements.
pub proof fn lemma_quiet_nodes(nodes: Seq<NodeView>, st: StateView)
    requires
        quiet_nodes(nodes),
        writable(st),
    ensures
        after_nodes(nodes, st) == carried_result(st, after_nodes(nodes, bare(st))),
    decreases nodes, 0nat,
{
    if nodes.len() > 0 {
        lemma_quiet_statement(nodes[0], st);
        lemma_statement_extends_scope(nodes[0], bare(st));
        match after_statement(nodes[0], bare(st)) {
            Ok(ran) => {
                lemma_then_rest(nodes.drop_first(), st, ran);
            },
            Err(_) => {},
        }
    }
}

/// As `lemma_then_nodes`, for the statements behind the first of a list.
proof fn lemma_then_rest(nodes: Seq<NodeView>, st: StateView, ran: StateView)
    requires
        quiet_nodes(nodes),
        writable(st),
        ran.files == st.files,
        ran.pwd == st.pwd,
        !ran.grouped,
    ensures
        after_nodes(nodes, carried(st, ran)) == carried_result(st, after_nodes(nodes, ran)),
    decreases nodes, 1nat,
{
    lemma_carried_bare(st, ran);
    lemma_quiet_nodes(nodes, carried(st, ran));
    lemma_quiet_nodes(nodes, ran);
    lemma_carried_twice(st, ran, end_of(after_nodes(nodes, bare(ran))));
}

proof fn lemma_quiet_loop(
    items: Seq<ObjectView>,
    variable: Seq<char>,
    body: Seq<NodeView>,
    st: StateView,
)
    requires
        quiet_nodes(body),
        writable(st),
    ensures
        after_loop(items, variable, body, st) == carried_result(
            st,
            after_loop(items, variable, body, bare(st)),
        ),
    decreases body, items.len(),
{
    if items.len() > 0 {
        let n = st.scope.len() as int;
        let inner = st.bind(variable, items[0]);
        lemma_quiet_nodes(body, inner);
        lemma_nodes_extend_scope(body, bare(inner));
        let ended = end_of(after_nodes(body, bare(inner)));
        assert(carried(inner, ended).cut(n) == carried(st, ended.cut(n)));
        match after_nodes(body, bare(inner)) {
            Ok(ran) => {
                let cut = ran.cut(n);
                lemma_carried_bare(st, cut);
                lemma_quiet_loop(items.drop_first(), variable, body, carried(st, cut));
                lemma_quiet_loop(items.drop_first(), variable, body, cut);
                lemma_carried_twice(
                    st,
                    cut,
                    end_of(after_loop(items.drop_first(), variable, body, bare(cut))),
                );
            },
            Err(_) => {},
        }
    } else {
        lemma_appended_twice(st.pages, Seq::empty(), Seq::empty());
    }
}

/// What one run of a loop writes: the instructions that its body writes
/// from the bare state `k`, with `variable` bound to `item`.
pub open spec fn run_output(
    body: Seq<NodeView>,
    variable: Seq<char>,
    k: StateView,
    item: ObjectView,
) -> Seq<InstructionView> {
    match after_nodes(body, k.bind(variable, item)) {
        Ok(ran) => last_program(ran.pages),
        Err(_) => Seq::empty(),
    }
}

/// Adds what the run for an item writes to a collection of instructions.
pub open spec fn add_run(body: Seq<NodeView>, variable: Seq<char>, k: StateView) -> spec_fn(
    Multiset<InstructionView>,
    ObjectView,
) -> Multiset<InstructionView> {
    |m: Multiset<InstructionView>, item: ObjectView|
        m.add(run_output(body, variable, k, item).to_multiset())
}

proof fn lemma_add_run_commutes(body: Seq<NodeView>, variable: Seq<char>, k: StateView)
    ensures
        vstd::seq_lib::commutative_foldl(add_run(body, variable, k)),
{
    let f = add_run(body, variable, k);
    assert forall|x: ObjectView, y: ObjectView, v: Multiset<InstructionView>| #[trigger]
        f(f(v, x), y) == f(f(v, y), x) by {
        let a = run_output(body, variable, k, x).to_multiset();
        let b = run_output(body, variable, k, y).to_multiset();
        assert(v.add(a).add(b) =~= v.add(b).add(a));
    }
}

/// A loop with a quiet body writes, run by run, what each run writes from
/// the bare state: the instructions of the last page after it are those
/// before it and those of the runs.
proof fn lemma_loop_collects(
    items: Seq<ObjectView>,
    variable: Seq<char>,
    body: Seq<NodeView>,
    s: StateView,
)
    requires
        quiet_nodes(body),
        writable(s),
        after_loop(items, variable, body, s) is Ok,
    ensures
        last_program(after_loop(items, variable, body, s)->Ok_0.pages).to_multiset() == items.fold_left(
            last_program(s.pages).to_multiset(),
            add_run(body, variable, bare(s)),
        ),
    decreases items.len(),
{
    let k = bare(s);
    let f = add_run(body, variable, k);
    let m0 = last_program(s.pages).to_multiset();
    if items.len() > 0 {
        let n = s.scope.len() as int;
        let inner = s.bind(variable, items[0]);
        let rest = items.drop_first();
        lemma_quiet_nodes(body, inner);
        assert(bare(inner) == k.bind(variable, items[0]));
        lemma_nodes_extend_scope(body, bare(inner));
        let ran = after_nodes(body, bare(inner))->Ok_0;
        let next = carried(inner, ran).cut(n);
        assert(ran.scope.subrange(0, n) =~= s.scope) by {
            assert(ran.scope.subrange(0, bare(inner).scope.len() as int) == bare(inner).scope);
            assert(bare(inner).scope.subrange(0, n) =~= s.scope);
            assert(ran.scope.subrange(0, n) =~= ran.scope.subrange(
                0,
                bare(inner).scope.len() as int,
            ).subrange(0, n));
        }
        assert(bare(next) == k);
        lemma_appended_twice(s.pages, run_output(body, variable, k, items[0]), Seq::empty());
        vstd::seq_lib::lemma_multiset_commutative(
            last_program(s.pages),
            run_output(body, variable, k, items[0]),
        );
        assert(last_program(next.pages).to_multiset() == f(m0, items[0]));
        lemma_loop_collects(rest, variable, body, next);
        items.lemma_fold_left_alt(m0, f);
        assert(items.subrange(1, items.len() as int) =~= rest);
        rest.lemma_fold_left_alt(f(m0, items[0]), f);
    }
}

/// The values of the files `matches` as strings are a rearrangement of
/// those of another listing of the same files.
proof fn lemma_same_files_same_items(
    first: Seq<(Seq<char>, Seq<char>)>,
    second: Seq<(Seq<char>, Seq<char>)>,
)
    requires
        first.to_multiset() == second.to_multiset(),
    ensures
        string_objects(contents_of(first)).to_multiset() == string_objects(
            contents_of(second),
        ).to_multiset(),
{
    let h = |m: Multiset<ObjectView>, x: (Seq<char>, Seq<char>)| m.insert(ObjectView::String(x.1));
    assert forall|x: (Seq<char>, Seq<char>), y: (Seq<char>, Seq<char>), v: Multiset<ObjectView>| #[trigger]
        h(h(v, x), y) == h(h(v, y), x) by {
        assert(v.insert(ObjectView::String(x.1)).insert(ObjectView::String(y.1)) =~= v.insert(
            ObjectView::String(y.1),
        ).insert(ObjectView::String(x.1)));
    }
    lemma_items_as_fold(first);
    lemma_items_as_fold(second);
    vstd::seq_lib::lemma_fold_left_permutation(first, second, h, Multiset::empty());
}

proof fn lemma_items_as_fold(matches: Seq<(Seq<char>, Seq<char>)>)
    ensures
        string_objects(contents_of(matches)).to_multiset() == matches.fold_left(
            Multiset::empty(),
            |m: Multiset<ObjectView>, x: (Seq<char>, Seq<char>)| m.insert(ObjectView::String(x.1)),
        ),
    decreases matches.len(),
{
    let h = |m: Multiset<ObjectView>, x: (Seq<char>, Seq<char>)| m.insert(ObjectView::String(x.1));
    let items = string_objects(contents_of(matches));
    if matches.len() == 0 {
        assert(items =~= Seq::<ObjectView>::empty());
        items.to_multiset_ensures();
        assert(items.to_multiset() =~= Multiset::empty());
    } else {
        let before = matches.drop_last();
        lemma_items_as_fold(before);
        let last = ObjectView::String(matches.last().1);
        assert(items =~= string_objects(contents_of(before)).push(last));
        vstd::seq_lib::to_multiset_build(string_objects(contents_of(before)), last);
    }
}

/// Where no output can be written, a quiet statement that succeeds has
/// written none.
proof fn lemma_silent_statement(node: NodeView, st: StateView)
    requires
        quiet_node(node),
        !writable(st),
    ensures
        after_statement(node, st) matches Ok(after) ==> after.pages == st.pages,
    decreases node, 0nat,
{
    match node.statement {
        StatementView::Element(el) => {
            lemma_quiet_attributes(el.attributes, st, Seq::empty());
        },
        StatementView::Expression(e) => {
            lemma_quiet_value(e, st);
        },
        StatementView::Text(tokens) => {
            lemma_quiet_text(tokens, st, Seq::empty());
        },
        StatementView::Binding(_, e) => {
            lemma_quiet_value(e, st);
        },
        StatementView::Comment(_) => {},
        StatementView::ForLoop { ident, expr } => {
            lemma_quiet_value(expr, st);
            match value_of(expr, st) {
                Ok((v, _)) => {
                    if let Some(items) = v.items() {
                        lemma_silent_loop(items, ident.fragment, node.children, st);
                    }
                },
                Err(_) => {},
            }
        },
    }
}

proof fn lemma_silent_nodes(nodes: Seq<NodeView>, st: StateView)
    requires
        quiet_nodes(nodes),
        !writable(st),
    ensures
        after_nodes(nodes, st) matches Ok(after) ==> after.pages == st.pages,
    decreases nodes, 0nat,
{
    if nodes.len() > 0 {
        lemma_silent_statement(nodes[0], st);
        lemma_statement_extends_scope(nodes[0], st);
        match after_statement(nodes[0], st) {
            Ok(next) => {
                lemma_silent_nodes(nodes.drop_first(), next);
            },
            Err(_) => {},
        }
    }
}

proof fn lemma_silent_loop(
    items: Seq<ObjectView>,
    variable: Seq<char>,
    body: Seq<NodeView>,
    st: StateView,
)
    requires
        quiet_nodes(body),
        !writable(st),
    ensures
        after_loop(items, variable, body, st) matches Ok(after) ==> after.pages == st.pages,
    decreases body, items.len(),
{
    if items.len() > 0 {
        let inner = st.bind(variable, items[0]);
        lemma_silent_nodes(body, inner);
        lemma_nodes_extend_scope(body, inner);
        match after_nodes(body, inner) {
            Ok(ran) => {
                lemma_silent_loop(
                    items.drop_first(),
                    variable,
                    body,
                    ran.cut(st.scope.len() as int),
                );
            },
            Err(_) => {},
        }
    }
}

/// The state `st` with the patterns that `other` knows.
pub open spec fn with_globs_of(st: StateView, other: StateView) -> StateView {
    StateView { globs: other.globs, ..st }
}

pub open spec fn with_globs_result(
    r: Result<StateView, (ErrorView, StateView)>,
    other: StateView,
) -> Result<StateView, (ErrorView, StateView)> {
    match r {
        Ok(st) => Ok(with_globs_of(st, other)),
        Err((e, st)) => Err((e, with_globs_of(st, other))),
    }
}

/// Where no output can be written, what a quiet statement does depends on
/// no pattern that is known.
proof fn lemma_silent_statement_alike(node: NodeView, a: StateView, b: StateView)
    requires
        quiet_node(node),
        !writable(a),
        a == with_globs_of(b, a),
    ensures
        after_statement(node, a) == with_globs_result(after_statement(node, b), a),
    decreases node, 0nat,
{
    assert(bare(a) == bare(b));
    match node.statement {
        StatementView::Element(el) => {
            lemma_quiet_attributes(el.attributes, a, Seq::empty());
            lemma_quiet_attributes(el.attributes, b, Seq::empty());
        },
        StatementView::Expression(e) => {
            lemma_quiet_value(e, a);
            lemma_quiet_value(e, b);
        },
        StatementView::Text(tokens) => {
            lemma_quiet_text(tokens, a, Seq::empty());
            lemma_quiet_text(tokens, b, Seq::empty());
        },
        StatementView::Binding(_, e) => {
            lemma_quiet_value(e, a);
            lemma_quiet_value(e, b);
        },
        StatementView::Comment(_) => {},
        StatementView::ForLoop { ident, expr } => {
            lemma_quiet_value(expr, a);
            lemma_quiet_value(expr, b);
            match value_of(expr, b) {
                Ok((v, _)) => {
                    if let Some(items) = v.items() {
                        lemma_silent_loop_alike(items, ident.fragment, node.children, a, b);
                    }
                },
                Err(_) => {},
            }
        },
    }
}

proof fn lemma_silent_nodes_alike(nodes: Seq<NodeView>, a: StateView, b: StateView)
    requires
        quiet_nodes(nodes),
        !writable(a),
        a == with_globs_of(b, a),
    ensures
        after_nodes(nodes, a) == with_globs_result(after_nodes(nodes, b), a),
    decreases nodes, 0nat,
{
    if nodes.len() > 0 {
        lemma_silent_statement_alike(nodes[0], a, b);
        lemma_silent_statement(nodes[0], a);
        lemma_statement_extends_scope(nodes[0], a);
        match after_statement(nodes[0], b) {
            Ok(next) => {
                lemma_silent_nodes_alike(nodes.drop_first(), with_globs_of(next, a), next);
            },
            Err(_) => {},
        }
    }
}

proof fn lemma_silent_loop_alike(
    items: Seq<ObjectView>,
    variable: Seq<char>,
    body: Seq<NodeView>,
    a: StateView,
    b: StateView,
)
    requires
        quiet_nodes(body),
        !writable(a),
        a == with_globs_of(b, a),
    ensures
        after_loop(items, variable, body, a) == with_globs_result(
            after_loop(items, variable, body, b),
            a,
        ),
    decreases body, items.len(),
{
    if items.len() > 0 {
        let n = a.scope.len() as int;
        let inner_a = a.bind(variable, items[0]);
        let inner_b = b.bind(variable, items[0]);
        lemma_silent_nodes_alike(body, inner_a, inner_b);
        lemma_silent_nodes(body, inner_a);
        lemma_nodes_extend_scope(body, inner_a);
        match after_nodes(body, inner_b) {
            Ok(ran) => {
                lemma_silent_loop_alike(
                    items.drop_first(),
                    variable,
                    body,
                    with_globs_of(ran, a).cut(n),
                    ran.cut(n),
                );
            },
            Err(_) => {},
        }
    }
}

proof fn lemma_silent_run_alike(
    body: Seq<NodeView>,
    variable: Seq<char>,
    a: StateView,
    b: StateView,
    item: ObjectView,
)
    requires
        quiet_nodes(body),
        !writable(a),
        a == with_globs_of(b, a),
    ensures
        run_succeeds(body, variable, a, item) == run_succeeds(body, variable, b, item),
{
    lemma_silent_nodes_alike(body, a.bind(variable, item), b.bind(variable, item));
}

/// Whether the run of a loop for `item` succeeds from the state `k`.
pub open spec fn run_succeeds(
    body: Seq<NodeView>,
    variable: Seq<char>,
    k: StateView,
    item: ObjectView,
) -> bool {
    after_nodes(body, k.bind(variable, item)) is Ok
}

/// A loop with a quiet body succeeds where the run for each item succeeds
/// from the bare state, and only there.
proof fn lemma_loop_succeeds(
    items: Seq<ObjectView>,
    variable: Seq<char>,
    body: Seq<NodeView>,
    s: StateView,
)
    requires
        quiet_nodes(body),
        writable(s),
    ensures
        after_loop(items, variable, body, s) is Ok <==> forall|j: int|
            0 <= j < items.len() ==> run_succeeds(body, variable, bare(s), #[trigger] items[j]),
    decreases items.len(),
{
    let k = bare(s);
    if items.len() > 0 {
        let n = s.scope.len() as int;
        let inner = s.bind(variable, items[0]);
        let rest = items.drop_first();
        lemma_quiet_nodes(body, inner);
        assert(bare(inner) == k.bind(variable, items[0]));
        lemma_nodes_extend_scope(body, bare(inner));
        match after_nodes(body, bare(inner)) {
            Ok(ran) => {
                let next = carried(inner, ran).cut(n);
                assert(ran.scope.subrange(0, n) =~= s.scope) by {
                    assert(ran.scope.subrange(0, bare(inner).scope.len() as int) == bare(
                        inner,
                    ).scope);
                    assert(bare(inner).scope.subrange(0, n) =~= s.scope);
                    assert(ran.scope.subrange(0, n) =~= ran.scope.subrange(
                        0,
                        bare(inner).scope.len() as int,
                    ).subrange(0, n));
                }
                assert(bare(next) == k);
                lemma_loop_succeeds(rest, variable, body, next);
                assert forall|j: int| 0 <= j < rest.len() implies rest[j] == items[j + 1] by {}
                if after_loop(rest, variable, body, next) is Ok {
                    assert forall|j: int| 0 <= j < items.len() implies run_succeeds(
                        body,
                        variable,
                        k,
                        #[trigger] items[j],
                    ) by {
                        if j > 0 {
                            assert(items[j] == rest[j - 1]);
                        }
                    }
                } else {
                    let j = choose|j: int|
                        0 <= j < rest.len() && !run_succeeds(body, variable, k, #[trigger] rest[j]);
                    assert(!run_succeeds(body, variable, k, items[j + 1]));
                }
            },
            Err(_) => {
                assert(!run_succeeds(body, variable, k, items[0]));
            },
        }
    }
}

/// Where no output can be written, a loop with a quiet body succeeds where
/// the run for each item succeeds, and then leaves the state as it was.
proof fn lemma_silent_loop_succeeds(
    items: Seq<ObjectView>,
    variable: Seq<char>,
    body: Seq<NodeView>,
    s: StateView,
)
    requires
        quiet_nodes(body),
        !writable(s),
    ensures
        after_loop(items, variable, body, s) is Ok <==> forall|j: int|
            0 <= j < items.len() ==> run_succeeds(body, variable, s, #[trigger] items[j]),
    decreases items.len(),
{
    if items.len() > 0 {
        let n = s.scope.len() as int;
        let inner = s.bind(variable, items[0]);
        let rest = items.drop_first();
        lemma_silent_nodes(body, inner);
        lemma_nodes_extend_scope(body, inner);
        match after_nodes(body, inner) {
            Ok(ran) => {
                let next = ran.cut(n);
                assert(next.scope =~= s.scope) by {
                    assert(ran.scope.subrange(0, inner.scope.len() as int) == inner.scope);
                    assert(inner.scope.subrange(0, n) =~= s.scope);
                    assert(ran.scope.subrange(0, n) =~= ran.scope.subrange(
                        0,
                        inner.scope.len() as int,
                    ).subrange(0, n));
                }
                assert(next == s);
                lemma_silent_loop_succeeds(rest, variable, body, s);
                assert forall|j: int| 0 <= j < rest.len() implies rest[j] == items[j + 1] by {}
                if after_loop(rest, variable, body, s) is Ok {
                    assert forall|j: int| 0 <= j < items.len() implies run_succeeds(
                        body,
                        variable,
                        s,
                        #[trigger] items[j],
                    ) by {
                        if j > 0 {
                            assert(items[j] == rest[j - 1]);
                        }
                    }
                } else {
                    let j = choose|j: int|
                        0 <= j < rest.len() && !run_succeeds(body, variable, s, #[trigger] rest[j]);
                    assert(!run_succeeds(body, variable, s, items[j + 1]));
                }
            },
            Err(_) => {
                assert(!run_succeeds(body, variable, s, items[0]));
            },
        }
    }
}

/// What holds of every item of a sequence holds of every item of any
/// rearrangement of it.
proof fn lemma_all_of_rearranged<A>(a: Seq<A>, b: Seq<A>, p: spec_fn(A) -> bool)
    requires
        a.to_multiset() == b.to_multiset(),
        forall|j: int| 0 <= j < a.len() ==> p(#[trigger] a[j]),
    ensures
        forall|j: int| 0 <= j < b.len() ==> p(#[trigger] b[j]),
{
    assert forall|j: int| 0 <= j < b.len() implies p(#[trigger] b[j]) by {
        assert(b.contains(b[j]));
        vstd::seq_lib::to_multiset_contains(b, b[j]);
        vstd::seq_lib::to_multiset_contains(a, b[j]);
        let i = choose|i: int| 0 <= i < a.len() && a[i] == b[j];
        assert(p(a[i]));
    }
}

/// A listing keeps the order of the file system and no other: the value
/// of a pattern is the listing of the contents of the files in the order in
/// which they were given, and two file systems that give the same files in
/// any two orders give listings that are rearrangements of each other.
pub proof fn lemma_listings_are_rearrangements(
    pattern: SpanView,
    first: StateView,
    second: StateView,
)
    requires
        first.glob(pattern.fragment) is Ok,
        second.glob(pattern.fragment) is Ok,
        first.glob(pattern.fragment)->Ok_0.to_multiset() == second.glob(
            pattern.fragment,
        )->Ok_0.to_multiset(),
    ensures
        value_of(ExpressionView::GlobPattern(pattern), first) == Ok::<
            (ObjectView, StateView),
            (ErrorView, StateView),
        >((ObjectView::Listing(string_objects(contents_of(first.glob(pattern.fragment)->Ok_0))), first)),
        value_of(ExpressionView::GlobPattern(pattern), second) == Ok::<
            (ObjectView, StateView),
            (ErrorView, StateView),
        >(
            (
                ObjectView::Listing(string_objects(contents_of(second.glob(pattern.fragment)->Ok_0))),
                second,
            ),
        ),
        forall|k: int|
            0 <= k < first.glob(pattern.fragment)->Ok_0.len() ==> #[trigger] string_objects(
                contents_of(first.glob(pattern.fragment)->Ok_0),
            )[k] == ObjectView::String(first.glob(pattern.fragment)->Ok_0[k].1),
        string_objects(contents_of(first.glob(pattern.fragment)->Ok_0)).to_multiset()
            == string_objects(contents_of(second.glob(pattern.fragment)->Ok_0)).to_multiset(),
{
    lemma_same_files_same_items(
        first.glob(pattern.fragment)->Ok_0,
        second.glob(pattern.fragment)->Ok_0,
    );
}

/// The order of a listing. Two file systems that list the same files for
/// a pattern, in any two orders, make a loop over that pattern write the
/// same instructions, though not in the same order: the pages before the
/// last are the same, and the last page holds the same instructions, each
/// as often.
///
/// This is stated of a loop whose body calls nothing and holds no glob
/// pattern, and where the evaluation succeeds with the first listing: it
/// then succeeds with the second.
pub proof fn lemma_listing_order(node: NodeView, first: StateView, second: StateView)
    requires
        node.statement is ForLoop,
        node.statement->ForLoop_expr is GlobPattern,
        quiet_nodes(node.children),
        first.scope == second.scope,
        first.pages == second.pages,
        first.grouped == second.grouped,
        first.files == second.files,
        first.pwd == second.pwd,
        first.glob(node.statement->ForLoop_expr->GlobPattern_0.fragment) is Ok,
        second.glob(node.statement->ForLoop_expr->GlobPattern_0.fragment) is Ok,
        first.glob(node.statement->ForLoop_expr->GlobPattern_0.fragment)->Ok_0.to_multiset()
            == second.glob(
            node.statement->ForLoop_expr->GlobPattern_0.fragment,
        )->Ok_0.to_multiset(),
        after_statement(node, first) is Ok,
    ensures
        after_statement(node, second) is Ok,
        ({
            let a = after_statement(node, first)->Ok_0;
            let b = after_statement(node, second)->Ok_0;
            &&& a.scope == b.scope
            &&& a.pages.len() == b.pages.len()
            &&& a.pages.len() > 0 ==> {
                &&& a.pages.drop_last() == b.pages.drop_last()
                &&& a.pages.last().path == b.pages.last().path
                &&& a.pages.last().program.to_multiset() == b.pages.last().program.to_multiset()
            }
        }),
{
    let pattern = node.statement->ForLoop_expr->GlobPattern_0.fragment;
    let variable = node.statement->ForLoop_ident.fragment;
    let body = node.children;
    let m1 = first.glob(pattern)->Ok_0;
    let m2 = second.glob(pattern)->Ok_0;
    let items1 = string_objects(contents_of(m1));
    let items2 = string_objects(contents_of(m2));
    lemma_same_files_same_items(m1, m2);
    assert(after_statement(node, first) == after_loop(items1, variable, body, first));
    items1.to_multiset_ensures();
    items2.to_multiset_ensures();
    assert(items2.len() > 0);
    assert(after_statement(node, second) == after_loop(items2, variable, body, second));
    if writable(first) {
        assert(bare(second) == bare(first));
        lemma_loop_succeeds(items1, variable, body, first);
        lemma_loop_succeeds(items2, variable, body, second);
        lemma_all_of_rearranged(
            items1,
            items2,
            |item: ObjectView| run_succeeds(body, variable, bare(first), item),
        );
    } else {
        lemma_silent_loop_succeeds(items1, variable, body, first);
        lemma_silent_loop_succeeds(items2, variable, body, second);
        assert forall|item: ObjectView| #[trigger]
            run_succeeds(body, variable, first, item) == run_succeeds(
                body,
                variable,
                second,
                item,
            ) by {
            lemma_silent_run_alike(body, variable, first, second, item);
        }
        lemma_all_of_rearranged(
            items1,
            items2,
            |item: ObjectView| run_succeeds(body, variable, first, item),
        );
    }
    crate::interpreter::laws::lemma_loop_keeps_scope(items1, variable, body, first);
    crate::interpreter::laws::lemma_loop_keeps_scope(items2, variable, body, second);
    if !writable(first) {
        lemma_silent_loop(items1, variable, body, first);
        lemma_silent_loop(items2, variable, body, second);
    } else {
        lemma_written_alike(items1, items2, variable, body, first, second);
    }
}

/// The part of `lemma_listing_order` for states in which output can be
/// written.
proof fn lemma_written_alike(
    items1: Seq<ObjectView>,
    items2: Seq<ObjectView>,
    variable: Seq<char>,
    body: Seq<NodeView>,
    first: StateView,
    second: StateView,
)
    requires
        quiet_nodes(body),
        writable(first),
        first.scope == second.scope,
        first.pages == second.pages,
        first.grouped == second.grouped,
        first.files == second.files,
        first.pwd == second.pwd,
        items1.to_multiset() == items2.to_multiset(),
        after_loop(items1, variable, body, first) is Ok,
        after_loop(items2, variable, body, second) is Ok,
    ensures
        ({
            let a = after_loop(items1, variable, body, first)->Ok_0;
            let b = after_loop(items2, variable, body, second)->Ok_0;
            &&& a.pages.len() == b.pages.len()
            &&& a.pages.len() > 0 ==> {
                &&& a.pages.drop_last() == b.pages.drop_last()
                &&& a.pages.last().path == b.pages.last().path
                &&& a.pages.last().program.to_multiset() == b.pages.last().program.to_multiset()
            }
        }),
{
    let k = bare(first);
    assert(bare(second) == k);
    let f = add_run(body, variable, k);
    lemma_loop_collects(items1, variable, body, first);
    lemma_loop_collects(items2, variable, body, second);
    lemma_add_run_commutes(body, variable, k);
    vstd::seq_lib::lemma_fold_left_permutation(
        items1,
        items2,
        f,
        last_program(first.pages).to_multiset(),
    );
    lemma_quiet_loop(items1, variable, body, first);
    lemma_quiet_loop(items2, variable, body, second);
    let a = after_loop(items1, variable, body, first)->Ok_0;
    let b = after_loop(items2, variable, body, second)->Ok_0;
    let w1 = last_program(after_loop(items1, variable, body, k)->Ok_0.pages);
    let w2 = last_program(after_loop(items2, variable, body, k)->Ok_0.pages);
    lemma_appended_twice(first.pages, w1, Seq::empty());
    lemma_appended_twice(first.pages, w2, Seq::empty());
    let base = last_program(first.pages);
    assert(last_program(a.pages) == base + w1);
    assert(last_program(b.pages) == base + w2);
    (base + w1).to_multiset_ensures();
    (base + w2).to_multiset_ensures();
    assert(w1.len() == w2.len());
    if w1.len() > 0 && first.pages.len() > 0 {
        assert(a.pages.drop_last() =~= first.pages.drop_last());
        assert(b.pages.drop_last() =~= first.pages.drop_last());
    }
    if w1.len() > 0 && first.pages.len() == 0 {
        assert(a.pages.drop_last() =~= b.pages.drop_last());
    }
}

} // verus!
