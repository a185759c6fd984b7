//! Evaluation of expressions and statements.

use vstd::prelude::*;
use vstd::string::StringExecFns;
use crate::interpreter::assoc::{find_first, first_of};
use crate::interpreter::builtins::{call_builtin, invoke};
use crate::interpreter::error::{ErrorKindView, ErrorView, InterpreterError, InterpreterErrorKind};
use crate::interpreter::html::{
    attributes_view,
    close_tag_text,
    insert_attribute,
    open_tag_text,
    set_attribute,
    valid_tag,
    HTMLElement,
};
use crate::interpreter::models::{
    bindings_view,
    lemma_array_object_view,
    lemma_listing_object_view,
    lemma_map_object_view,
    objects_view,
    Object,
    ObjectView,
};
use crate::interpreter::program::{InstructionView, ProgramInstruction};
use crate::interpreter::state::{State, StateView};
use crate::interpreter::util::{import_file, import_files};
use crate::parser::models::{
    lemma_array_view,
    lemma_call_view,
    lemma_node_view,
    named_view,
    nodes_view,
    expressions_view,
    tokens_view,
    Expression,
    ExpressionView,
    FunctionCall,
    Literal,
    LiteralView,
    Node,
    NodeView,
    Statement,
    StatementView,
    StringToken,
    StringTokenView,
};
use crate::parser::span::{Span, SpanView};

verus! {

/// A failure: the error, and the state as it stands where the error is met.
pub type Failed = (ErrorView, StateView);

/// What evaluating an expression gives: its value and the state after it,
/// or the error and the state at the failure.
pub type Evaluated = Result<(ObjectView, StateView), Failed>;

/// The value that the name `name` stands for. A first segment that is not
/// bound is an unresolved reference to the whole name; a member that is
/// missing is an unresolved member. Both are found at the name.
pub open spec fn resolve(st: StateView, name: SpanView) -> Result<ObjectView, ErrorView> {
    match st.find(name.fragment) {
        Ok(v) => Ok(v),
        Err(None) => Err(ErrorView::at(ErrorKindView::UnresolvedReference(name.fragment), name)),
        Err(Some(key)) => Err(ErrorView::at(ErrorKindView::UnresolvedMember(key), name)),
    }
}

/// The name of the form of an expression.
pub open spec fn expression_kind(e: ExpressionView) -> Seq<char> {
    match e {
        ExpressionView::FunctionCall { .. } => "FunctionCall"@,
        ExpressionView::Reference(_) => "Reference"@,
        ExpressionView::Literal(_) => "Literal"@,
        ExpressionView::RelativePath(_) => "RelativePath"@,
        ExpressionView::GlobPattern(_) => "GlobPattern"@,
        ExpressionView::Array(_) => "Array"@,
        ExpressionView::Index(_, _) => "Index"@,
    }
}

/// The error of a method that is not bound: where the name of the method
/// is an unresolved reference, it is an unresolved member.
pub open spec fn member_error(e: ErrorView) -> ErrorView {
    match e.kind {
        ErrorKindView::UnresolvedReference(name) => ErrorView {
            kind: ErrorKindView::UnresolvedMember(name),
            location: e.location,
        },
        _ => e,
    }
}

/// The member of the map `entries` that `right` names: `right` must be a
/// name, and the first entry of that name is the member. A name without an
/// entry is an unresolved member, found at the name.
pub open spec fn map_member(entries: Seq<(Seq<char>, ObjectView)>, right: ExpressionView) -> Result<
    ObjectView,
    ErrorView,
> {
    match right {
        ExpressionView::Reference(key) => match first_of(entries, key.fragment) {
            Some(v) => Ok(v),
            None => Err(ErrorView::at(ErrorKindView::UnresolvedMember(key.fragment), key)),
        },
        other => Err(ErrorView::mismatch("Reference"@, expression_kind(other))),
    }
}

/// An error with the state as it stands where the error is met.
pub open spec fn failed<T>(e: ErrorView, st: StateView) -> Result<T, (ErrorView, StateView)> {
    Err((e, st))
}

/// A result that has no state of its own, with the state `st` behind it:
/// for a value the state after it, for an error the state at the failure.
pub open spec fn in_state<T>(r: Result<T, ErrorView>, st: StateView) -> Result<
    (T, StateView),
    (ErrorView, StateView),
> {
    match r {
        Ok(v) => Ok((v, st)),
        Err(e) => Err((e, st)),
    }
}

/// The value of the expression `e` in the state `st`, and the state after
/// it; or the error, and the state as it stands at the failure.
///
/// A string literal is its text; a number has no value and is a type
/// mismatch. A name is resolved in scope. A relative path is the contents
/// of its file, a glob pattern the array of the contents of the files that
/// match it. An array is the array of the values of its items, evaluated
/// in order.
///
/// A call evaluates what is called, which must be a function, then the
/// arguments in order; the function gets a scope of its own that holds the
/// arguments and nothing of the caller's scope.
///
/// `left.right` evaluates `left`. Where it is a map, `right` must be a name
/// and is looked up in it. Where it is a string, `right` must be a call;
/// the function gets the string as `$self` before the arguments.
pub open spec fn value_of(e: ExpressionView, st: StateView) -> Evaluated
    decreases e, 1nat,
{
    match e {
        ExpressionView::Literal(LiteralView::String(s)) => Ok((ObjectView::String(s.fragment), st)),
        ExpressionView::Literal(LiteralView::Number(s)) => failed(
            ErrorView::at(
                ErrorKindView::TypeMismatch { expected: "String"@, actual: "Number"@ },
                s,
            ),
            st,
        ),
        ExpressionView::Reference(name) => in_state(resolve(st, name), st),
        ExpressionView::RelativePath(path) => match st.file(path.fragment) {
            Ok(contents) => Ok((ObjectView::String(contents), st)),
            Err(e) => failed(e, st),
        },
        ExpressionView::GlobPattern(pattern) => in_state(st.glob_array(pattern.fragment), st),
        ExpressionView::Array(items) => match values_of(items, st, Seq::empty()) {
            Ok((values, st1)) => Ok((ObjectView::Array(values), st1)),
            Err(f) => Err(f),
        },
        ExpressionView::FunctionCall { .. } => called(e, st, Seq::empty(), false),
        ExpressionView::Index(left, right) => match value_of(*left, st) {
            Ok((ObjectView::Dict(entries), st1)) => in_state(map_member(entries, *right), st1),
            Ok((ObjectView::String(s), st1)) => match *right {
                ExpressionView::FunctionCall { .. } => called(
                    *right,
                    st1,
                    seq![("$self"@, ObjectView::String(s))],
                    true,
                ),
                other => failed(
                    ErrorView::mismatch("FunctionCall"@, expression_kind(other)),
                    st1,
                ),
            },
            Ok((other, st1)) => failed(ErrorView::mismatch("Map"@, other.kind()), st1),
            Err(f) => Err(f),
        },
    }
}

/// What the call `call` gives. What is called is evaluated first and must
/// be a function; then the arguments are evaluated in order, in the
/// caller's state. The function gets a scope of its own: the bindings
/// `first` and behind them the arguments, and nothing of the caller's scope.
/// For a method, `as_member` is set, and a name of the method that is not
/// bound is an unresolved member. A function that fails leaves the state as
/// it was when it was called.
pub open spec fn called(
    call: ExpressionView,
    st: StateView,
    first: Seq<(Seq<char>, ObjectView)>,
    as_member: bool,
) -> Evaluated
    decreases call, 0nat,
{
    match call {
        ExpressionView::FunctionCall { ident, arguments } => match value_of(*ident, st) {
            Ok((callee, st1)) => match callee {
                ObjectView::BuiltinFunction(b) => match call_scope(arguments, st1, first) {
                    Ok((scope, st2)) => match invoke(b, scope, st2) {
                        Ok(r) => Ok(r),
                        Err(e) => failed(e, st2),
                    },
                    Err(f) => Err(f),
                },
                _ => failed(ErrorView::plain(ErrorKindView::NotCallable), st1),
            },
            Err((e, at)) => failed(
                if as_member {
                    member_error(e)
                } else {
                    e
                },
                at,
            ),
        },
        _ => failed(ErrorView::plain(ErrorKindView::NotCallable), st),
    }
}

/// The scope of a call: `scope` with each argument bound to its value, the
/// arguments evaluated in order in the caller's state.
pub open spec fn call_scope(
    arguments: Seq<(SpanView, ExpressionView)>,
    st: StateView,
    scope: Seq<(Seq<char>, ObjectView)>,
) -> Result<(Seq<(Seq<char>, ObjectView)>, StateView), (ErrorView, StateView)>
    decreases arguments, 1nat,
{
    if arguments.len() == 0 {
        Ok((scope, st))
    } else {
        match value_of(arguments[0].1, st) {
            Ok((v, st1)) => call_scope(
                arguments.drop_first(),
                st1,
                scope.push((arguments[0].0.fragment, v)),
            ),
            Err(f) => Err(f),
        }
    }
}

/// The values `done` and behind them the values of `items`, evaluated in
/// order.
pub open spec fn values_of(items: Seq<ExpressionView>, st: StateView, done: Seq<ObjectView>)
    -> Result<(Seq<ObjectView>, StateView), (ErrorView, StateView)>
    decreases items, 1nat,
{
    if items.len() == 0 {
        Ok((done, st))
    } else {
        match value_of(items[0], st) {
            Ok((v, st1)) => values_of(items.drop_first(), st1, done.push(v)),
            Err(f) => Err(f),
        }
    }
}

/// The text `done` and behind it the pieces `tokens`, in order: text as it
/// stands, and an expression as its value put into text. A value that has
/// no text is a type mismatch.
pub open spec fn text_of(tokens: Seq<StringTokenView>, st: StateView, done: Seq<char>)
    -> Result<(Seq<char>, StateView), (ErrorView, StateView)>
    decreases tokens.len(),
{
    if tokens.len() == 0 {
        Ok((done, st))
    } else {
        match tokens[0] {
            StringTokenView::Text(t) => text_of(tokens.drop_first(), st, done + t.fragment),
            StringTokenView::Expression(e) => match value_of(e, st) {
                Ok((v, st1)) => match v.text() {
                    Some(t) => text_of(tokens.drop_first(), st1, done + t),
                    None => failed(ErrorView::mismatch("String"@, v.kind()), st1),
                },
                Err(f) => Err(f),
            },
        }
    }
}

/// The attributes `done` with each of `attributes` set to its value, which
/// must be a string, in order.
pub open spec fn attributes_of(
    attributes: Seq<(SpanView, ExpressionView)>,
    st: StateView,
    done: Seq<(Seq<char>, Seq<char>)>,
) -> Result<(Seq<(Seq<char>, Seq<char>)>, StateView), (ErrorView, StateView)>
    decreases attributes.len(),
{
    if attributes.len() == 0 {
        Ok((done, st))
    } else {
        match value_of(attributes[0].1, st) {
            Ok((v, st1)) => match v.string() {
                Some(value) => attributes_of(
                    attributes.drop_first(),
                    st1,
                    set_attribute(done, attributes[0].0.fragment, value),
                ),
                None => failed(ErrorView::mismatch("String"@, v.kind()), st1),
            },
            Err(f) => Err(f),
        }
    }
}

/// The state after `instruction` is written in `st`; where it cannot be
/// written, the error and `st` as it is.
pub open spec fn written(st: StateView, instruction: InstructionView) -> Result<
    StateView,
    (ErrorView, StateView),
> {
    match st.emit(instruction) {
        Ok(after) => Ok(after),
        Err(e) => Err((e, st)),
    }
}

/// The state after the statement of `node` is evaluated in `st`; or the
/// error, and the state as it stands at the failure: what was written and
/// bound before the failure is there, and nothing else.
///
/// An element evaluates its attributes in order, checks its name, writes
/// its opening tag, evaluates its children in the same scope, and writes
/// its closing tag. An expression writes its value as text and evaluates
/// its children in the same scope. A text line writes its pieces as one
/// text. A binding binds its name to the value of its expression. A comment
/// does nothing, whatever stands under it. A loop evaluates its expression,
/// which must be an array or a listing, and runs its children once for each
/// item. A listing without items is an error: the pattern it came from
/// matched no file.
pub open spec fn after_statement(node: NodeView, st: StateView) -> Result<
    StateView,
    (ErrorView, StateView),
>
    decreases node, 0nat,
{
    match node.statement {
        StatementView::Element(el) => {
            let name = el.ident.fragment;
            match attributes_of(el.attributes, st, Seq::empty()) {
                Ok((attributes, st1)) => {
                    if !valid_tag(name) {
                        failed(ErrorView::at(ErrorKindView::InvalidElement(name), el.ident), st1)
                    } else {
                        match written(
                            st1,
                            InstructionView::OpenTag(open_tag_text(name, attributes)),
                        ) {
                            Ok(st2) => match after_nodes(node.children, st2) {
                                Ok(st3) => written(
                                    st3,
                                    InstructionView::CloseTag(close_tag_text(name)),
                                ),
                                Err(f) => Err(f),
                            },
                            Err(f) => Err(f),
                        }
                    }
                },
                Err(f) => Err(f),
            }
        },
        StatementView::Expression(e) => match value_of(e, st) {
            Ok((v, st1)) => match v.text() {
                Some(t) => match written(st1, InstructionView::Text(t)) {
                    Ok(st2) => after_nodes(node.children, st2),
                    Err(f) => Err(f),
                },
                None => failed(ErrorView::mismatch("String"@, v.kind()), st1),
            },
            Err(f) => Err(f),
        },
        StatementView::Text(tokens) => match text_of(tokens, st, Seq::empty()) {
            Ok((t, st1)) => written(st1, InstructionView::Text(t)),
            Err(f) => Err(f),
        },
        StatementView::Binding(name, e) => match value_of(e, st) {
            Ok((v, st1)) => Ok(st1.bind(name.fragment, v)),
            Err(f) => Err(f),
        },
        StatementView::Comment(_) => Ok(st),
        StatementView::ForLoop { ident, expr } => match value_of(expr, st) {
            Ok((v, st1)) => match v.items() {
                Some(items) => {
                    if items.len() == 0 && v is Listing {
                        failed(ErrorView::at(ErrorKindView::EmptyGlobResult, ident), st1)
                    } else {
                        after_loop(items, ident.fragment, node.children, st1)
                    }
                },
                None => failed(
                    ErrorView::at(
                        ErrorKindView::TypeMismatch { expected: "Array"@, actual: v.kind() },
                        ident,
                    ),
                    st1,
                ),
            },
            Err(f) => Err(f),
        },
    }
}

/// The state after the statements of `nodes` are evaluated in order, each
/// in the state that the one before it left. The first that fails ends it.
pub open spec fn after_nodes(nodes: Seq<NodeView>, st: StateView) -> Result<
    StateView,
    (ErrorView, StateView),
>
    decreases nodes, 0nat,
{
    if nodes.len() == 0 {
        Ok(st)
    } else {
        match after_statement(nodes[0], st) {
            Ok(st1) => after_nodes(nodes.drop_first(), st1),
            Err(f) => Err(f),
        }
    }
}

/// The state after `body` is run once for each of `items`, in order. Each
/// run starts with `variable` bound to its item, over the scope as it was
/// before the loop; what the run binds is dropped when it ends, also where
/// it ends in an error.
pub open spec fn after_loop(
    items: Seq<ObjectView>,
    variable: Seq<char>,
    body: Seq<NodeView>,
    st: StateView,
) -> Result<StateView, (ErrorView, StateView)>
    decreases body, items.len(),
{
    if items.len() == 0 {
        Ok(st)
    } else {
        match after_nodes(body, st.bind(variable, items[0])) {
            Ok(st1) => after_loop(
                items.drop_first(),
                variable,
                body,
                st1.cut(st.scope.len() as int),
            ),
            Err((e, at)) => Err((e, at.cut(st.scope.len() as int))),
        }
    }
}

/// The name of the form of an expression.
pub fn kind_of(e: &Expression) -> (r: String)
    ensures
        r@ == expression_kind(e@),
{
    match e {
        Expression::FunctionCall(_) => "FunctionCall".to_owned(),
        Expression::Reference(_) => "Reference".to_owned(),
        Expression::Literal(_) => "Literal".to_owned(),
        Expression::RelativePath(_) => "RelativePath".to_owned(),
        Expression::GlobPattern(_) => "GlobPattern".to_owned(),
        Expression::Array(_) => "Array".to_owned(),
        Expression::Index(_, _) => "Index".to_owned(),
    }
}

/// Resolves the name `name` in the scope of `state`.
pub fn require(state: &State, name: &Span) -> (r: Result<Object, InterpreterError>)
    ensures
        match r {
            Ok(v) => resolve(state@, name@) == Ok::<ObjectView, ErrorView>(v@),
            Err(e) => resolve(state@, name@) == Err::<ObjectView, ErrorView>(e@),
        },
{
    let text = name.fragment();
    match state.find(text.as_str()) {
        Ok(v) => Ok(v),
        Err(None) => Err(
            InterpreterError::at(InterpreterErrorKind::UnresolvedReference(text), name),
        ),
        Err(Some(key)) => Err(
            InterpreterError::at(InterpreterErrorKind::UnresolvedMember(key), name),
        ),
    }
}

/// Turns the error of a method that is not bound into an unresolved
/// member.
pub fn as_member_error(e: InterpreterError) -> (r: InterpreterError)
    ensures
        r@ == member_error(e@),
{
    match e.kind {
        InterpreterErrorKind::UnresolvedReference(name) => InterpreterError {
            kind: InterpreterErrorKind::UnresolvedMember(name),
            location: e.location,
        },
        kind => InterpreterError { kind, location: e.location },
    }
}

/// Evaluates the expression `expr`, and returns its value.
#[verifier::loop_isolation(false)]
pub fn eval_expression(state: &mut State, expr: &Expression) -> (r: Result<
    Object,
    InterpreterError,
>)
    ensures
        match r {
            Ok(v) => value_of(expr@, old(state)@) == Ok::<(ObjectView, StateView), Failed>(
                (v@, final(state)@),
            ),
            Err(e) => value_of(expr@, old(state)@) == Err::<(ObjectView, StateView), Failed>((e@, final(state)@)),
        },
    decreases expr, 1nat,
{
    match expr {
        Expression::Literal(Literal::String(s)) => Ok(Object::String(s.fragment())),
        Expression::Literal(Literal::Number(s)) => Err(
            InterpreterError::at(
                InterpreterErrorKind::TypeMismatch {
                    expected: "String".to_owned(),
                    actual: "Number".to_owned(),
                },
                s,
            ),
        ),
        Expression::Reference(name) => require(state, name),
        Expression::RelativePath(path) => import_file(state, path),
        Expression::GlobPattern(pattern) => import_files(state, pattern),
        Expression::Array(items) => {
            proof {
                lemma_array_view(*items);
            }
            match eval_items(state, items) {
                Ok(values) => {
                    proof {
                        lemma_array_object_view(values);
                    }
                    Ok(Object::Array(values))
                },
                Err(e) => Err(e),
            }
        },
        Expression::FunctionCall(f) => {
            let first: Vec<(String, Object)> = Vec::new();
            proof {
                assert(bindings_view(first@) =~= Seq::empty());
            }
            eval_call(state, f, first, false)
        },
        Expression::Index(left, right) => {
            let value = match eval_expression(state, left) {
                Ok(v) => v,
                Err(e) => {
                    return Err(e);
                },
            };
            match value {
                Object::Dict(entries) => {
                    proof {
                        lemma_map_object_view(entries);
                    }
                    member_of_map(&entries, right)
                },
                Object::String(s) => match &**right {
                    Expression::FunctionCall(f) => {
                        let mut first: Vec<(String, Object)> = Vec::new();
                        let this = ("$self".to_owned(), Object::String(s));
                        proof {
                            assert(bindings_view(first@.push(this)) =~= seq![
                                ("$self"@, ObjectView::String(s@)),
                            ]);
                        }
                        first.push(this);
                        eval_call(state, f, first, true)
                    },
                    other => Err(InterpreterError::mismatch("FunctionCall", kind_of(other))),
                },
                other => Err(InterpreterError::mismatch("Map", other.kind())),
            }
        },
    }
}

/// Looks up the member of the map `entries` that `right` names.
pub fn member_of_map(entries: &Vec<(String, Object)>, right: &Expression) -> (r: Result<
    Object,
    InterpreterError,
>)
    ensures
        match r {
            Ok(v) => map_member(bindings_view(entries@), right@) == Ok::<ObjectView, ErrorView>(
                v@,
            ),
            Err(e) => map_member(bindings_view(entries@), right@) == Err::<ObjectView, ErrorView>(
                e@,
            ),
        },
{
    match right {
        Expression::Reference(key) => {
            let k = key.fragment();
            match find_first(entries, k.as_str()) {
                Some(v) => Ok(v.clone()),
                None => Err(InterpreterError::at(InterpreterErrorKind::UnresolvedMember(k), key)),
            }
        },
        other => Err(InterpreterError::mismatch("Reference", kind_of(other))),
    }
}

/// Evaluates the call `f`. The function that is called gets the bindings
/// `first` and the arguments.
pub fn eval_call(
    state: &mut State,
    f: &FunctionCall,
    first: Vec<(String, Object)>,
    as_member: bool,
) -> (r: Result<Object, InterpreterError>)
    ensures
        match r {
            Ok(v) => called(
                Expression::FunctionCall(*f)@,
                old(state)@,
                bindings_view(first@),
                as_member,
            ) == Ok::<(ObjectView, StateView), Failed>((v@, final(state)@)),
            Err(e) => called(
                Expression::FunctionCall(*f)@,
                old(state)@,
                bindings_view(first@),
                as_member,
            ) == Err::<(ObjectView, StateView), Failed>((e@, final(state)@)),
        },
    decreases f, 0nat,
{
    proof {
        lemma_call_view(*f);
    }
    let callee = match eval_expression(state, &f.ident) {
        Ok(v) => v,
        Err(e) => {
            return Err(
                if as_member {
                    as_member_error(e)
                } else {
                    e
                },
            );
        },
    };
    match callee {
        Object::BuiltinFunction(b) => match eval_arguments(state, &f.arguments, first) {
            Ok(scope) => call_builtin(b, &scope, state),
            Err(e) => Err(e),
        },
        _ => Err(InterpreterError::plain(InterpreterErrorKind::NotCallable)),
    }
}

/// Evaluates the arguments of a call in order, and binds each in `scope`.
#[verifier::loop_isolation(false)]
pub fn eval_arguments(
    state: &mut State,
    arguments: &Vec<(Span, Expression)>,
    scope: Vec<(String, Object)>,
) -> (r: Result<Vec<(String, Object)>, InterpreterError>)
    ensures
        match r {
            Ok(bound) => call_scope(named_view(arguments@), old(state)@, bindings_view(scope@))
                == Ok::<(Seq<(Seq<char>, ObjectView)>, StateView), Failed>(
                (bindings_view(bound@), final(state)@),
            ),
            Err(e) => call_scope(named_view(arguments@), old(state)@, bindings_view(scope@))
                == Err::<(Seq<(Seq<char>, ObjectView)>, StateView), Failed>((e@, final(state)@)),
        },
    decreases arguments, 0nat,
{
    let mut scope = scope;
    let ghost all = named_view(arguments@);
    let ghost goal = call_scope(all, state@, bindings_view(scope@));
    let mut k: usize = 0;
    proof {
        assert(all.subrange(0, all.len() as int) =~= all);
    }
    while k < arguments.len()
        invariant
            k <= arguments.len(),
            goal == call_scope(
                all.subrange(k as int, all.len() as int),
                state@,
                bindings_view(scope@),
            ),
        decreases arguments.len() - k,
    {
        let ghost tail = all.subrange(k as int, all.len() as int);
        proof {
            assert(tail[0] == (arguments@[k as int].0@, arguments@[k as int].1@));
            assert(tail.drop_first() =~= all.subrange(k as int + 1, all.len() as int));
        }
        let value = match eval_expression(state, &arguments[k].1) {
            Ok(v) => v,
            Err(e) => {
                return Err(e);
            },
        };
        let entry = (arguments[k].0.fragment(), value);
        proof {
            assert(bindings_view(scope@.push(entry)) =~= bindings_view(scope@).push(
                (tail[0].0.fragment, value@),
            ));
        }
        scope.push(entry);
        k = k + 1;
    }
    proof {
        assert(all.subrange(k as int, all.len() as int) =~= Seq::empty());
    }
    Ok(scope)
}

/// Evaluates the items of an array in order.
#[verifier::loop_isolation(false)]
pub fn eval_items(state: &mut State, items: &Vec<Expression>) -> (r: Result<
    Vec<Object>,
    InterpreterError,
>)
    ensures
        match r {
            Ok(values) => values_of(expressions_view(items@), old(state)@, Seq::empty()) == Ok::<
                (Seq<ObjectView>, StateView), Failed>((objects_view(values@), final(state)@)),
            Err(e) => values_of(expressions_view(items@), old(state)@, Seq::empty()) == Err::<
                (Seq<ObjectView>, StateView), Failed>((e@, final(state)@)),
        },
    decreases items, 0nat,
{
    let mut values: Vec<Object> = Vec::new();
    let ghost all = expressions_view(items@);
    let ghost goal = values_of(all, state@, Seq::empty());
    let mut k: usize = 0;
    proof {
        assert(all.subrange(0, all.len() as int) =~= all);
        assert(objects_view(values@) =~= Seq::empty());
    }
    while k < items.len()
        invariant
            k <= items.len(),
            goal == values_of(all.subrange(k as int, all.len() as int), state@, objects_view(values@)),
        decreases items.len() - k,
    {
        let ghost tail = all.subrange(k as int, all.len() as int);
        proof {
            assert(tail[0] == items@[k as int]@);
            assert(tail.drop_first() =~= all.subrange(k as int + 1, all.len() as int));
        }
        let value = match eval_expression(state, &items[k]) {
            Ok(v) => v,
            Err(e) => {
                return Err(e);
            },
        };
        proof {
            assert(objects_view(values@.push(value)) =~= objects_view(values@).push(value@));
        }
        values.push(value);
        k = k + 1;
    }
    proof {
        assert(all.subrange(k as int, all.len() as int) =~= Seq::empty());
    }
    Ok(values)
}

/// Converts the pieces of a text line to one text.
#[verifier::loop_isolation(false)]
pub fn eval_interpolation(state: &mut State, components: &Vec<StringToken>) -> (r: Result<
    String,
    InterpreterError,
>)
    ensures
        match r {
            Ok(t) => text_of(tokens_view(components@), old(state)@, Seq::empty()) == Ok::<
                (Seq<char>, StateView), Failed>((t@, final(state)@)),
            Err(e) => text_of(tokens_view(components@), old(state)@, Seq::empty()) == Err::<
                (Seq<char>, StateView), Failed>((e@, final(state)@)),
        },
{
    let mut text = String::new();
    let ghost all = tokens_view(components@);
    let ghost goal = text_of(all, state@, Seq::empty());
    let mut k: usize = 0;
    proof {
        assert(all.subrange(0, all.len() as int) =~= all);
    }
    while k < components.len()
        invariant
            k <= components.len(),
            all == tokens_view(components@),
            goal == text_of(all.subrange(k as int, all.len() as int), state@, text@),
        decreases components.len() - k,
    {
        let ghost tail = all.subrange(k as int, all.len() as int);
        proof {
            assert(tail[0] == components@[k as int]@);
            assert(tail.drop_first() =~= all.subrange(k as int + 1, all.len() as int));
        }
        match &components[k] {
            StringToken::Text(t) => {
                let piece = t.fragment();
                text.append(piece.as_str());
            },
            StringToken::Expression(e) => {
                let value = match eval_expression(state, e) {
                    Ok(v) => v,
                    Err(e) => {
                        return Err(e);
                    },
                };
                match value.to_string() {
                    Some(piece) => {
                        text.append(piece.as_str());
                    },
                    None => {
                        return Err(InterpreterError::mismatch("String", value.kind()));
                    },
                }
            },
        }
        k = k + 1;
    }
    proof {
        assert(all.subrange(k as int, all.len() as int) =~= Seq::empty());
    }
    Ok(text)
}

/// Evaluates the attributes of an element in order.
#[verifier::loop_isolation(false)]
pub fn eval_attributes(state: &mut State, attributes: &Vec<(Span, Expression)>) -> (r: Result<
    Vec<(String, String)>,
    InterpreterError,
>)
    ensures
        match r {
            Ok(a) => attributes_of(named_view(attributes@), old(state)@, Seq::empty()) == Ok::<
                (Seq<(Seq<char>, Seq<char>)>, StateView), Failed>((attributes_view(a@), final(state)@)),
            Err(e) => attributes_of(named_view(attributes@), old(state)@, Seq::empty()) == Err::<
                (Seq<(Seq<char>, Seq<char>)>, StateView), Failed>((e@, final(state)@)),
        },
{
    let mut done: Vec<(String, String)> = Vec::new();
    let ghost all = named_view(attributes@);
    let ghost goal = attributes_of(all, state@, Seq::empty());
    let mut k: usize = 0;
    proof {
        assert(all.subrange(0, all.len() as int) =~= all);
        assert(attributes_view(done@) =~= Seq::empty());
    }
    while k < attributes.len()
        invariant
            k <= attributes.len(),
            all == named_view(attributes@),
            goal == attributes_of(
                all.subrange(k as int, all.len() as int),
                state@,
                attributes_view(done@),
            ),
        decreases attributes.len() - k,
    {
        let ghost tail = all.subrange(k as int, all.len() as int);
        proof {
            assert(tail[0] == (attributes@[k as int].0@, attributes@[k as int].1@));
            assert(tail.drop_first() =~= all.subrange(k as int + 1, all.len() as int));
        }
        let value = match eval_expression(state, &attributes[k].1) {
            Ok(v) => v,
            Err(e) => {
                return Err(e);
            },
        };
        let kind = value.kind();
        match value.into_string() {
            Some(text) => {
                insert_attribute(&mut done, attributes[k].0.fragment(), text);
            },
            None => {
                return Err(InterpreterError::mismatch("String", kind));
            },
        }
        k = k + 1;
    }
    proof {
        assert(all.subrange(k as int, all.len() as int) =~= Seq::empty());
    }
    Ok(done)
}

/// Evaluates the statement of `statement`, with the statements under it.
#[verifier::loop_isolation(false)]
pub fn eval_statement(statement: &Node, state: &mut State) -> (r: Result<(), InterpreterError>)
    ensures
        match r {
            Ok(_) => after_statement(statement@, old(state)@) == Ok::<StateView, Failed>(final(state)@),
            Err(e) => after_statement(statement@, old(state)@) == Err::<StateView, Failed>(
                (e@, final(state)@),
            ),
        },
    decreases statement, 1nat,
{
    proof {
        lemma_node_view(*statement);
    }
    match &statement.statement {
        Statement::Element(el) => {
            let attributes = match eval_attributes(state, &el.attributes) {
                Ok(a) => a,
                Err(e) => {
                    return Err(e);
                },
            };
            let name = el.ident.fragment();
            let element = match HTMLElement::new(name.as_str(), attributes) {
                Some(element) => element,
                None => {
                    return Err(
                        InterpreterError::at(InterpreterErrorKind::InvalidElement(name), &el.ident),
                    );
                },
            };
            match state.push_instruction(ProgramInstruction::OpenTag(element.open_tag())) {
                Ok(_) => {},
                Err(e) => {
                    return Err(e);
                },
            }
            match eval_nodes(&statement.children, state) {
                Ok(_) => {},
                Err(e) => {
                    return Err(e);
                },
            }
            state.push_instruction(ProgramInstruction::CloseTag(element.close_tag()))
        },
        Statement::Expression(expr) => {
            let value = match eval_expression(state, expr) {
                Ok(v) => v,
                Err(e) => {
                    return Err(e);
                },
            };
            let text = match value.to_string() {
                Some(t) => t,
                None => {
                    return Err(InterpreterError::mismatch("String", value.kind()));
                },
            };
            match state.push_instruction(ProgramInstruction::Text(text)) {
                Ok(_) => {},
                Err(e) => {
                    return Err(e);
                },
            }
            eval_nodes(&statement.children, state)
        },
        Statement::Text(t) => {
            let text = match eval_interpolation(state, t) {
                Ok(t) => t,
                Err(e) => {
                    return Err(e);
                },
            };
            state.push_instruction(ProgramInstruction::Text(text))
        },
        Statement::Binding(ident, expr) => {
            let value = match eval_expression(state, expr) {
                Ok(v) => v,
                Err(e) => {
                    return Err(e);
                },
            };
            let name = ident.fragment();
            state.bind(name.as_str(), value);
            Ok(())
        },
        Statement::Comment(_) => Ok(()),
        Statement::ForLoop { ident, expr } => {
            let iter = match eval_expression(state, expr) {
                Ok(v) => v,
                Err(e) => {
                    return Err(e);
                },
            };
            match iter {
                Object::Array(array) => {
                    proof {
                        lemma_array_object_view(array);
                    }
                    let name = ident.fragment();
                    eval_loop(&array, name.as_str(), statement, state)
                },
                Object::Listing(array) => {
                    proof {
                        lemma_listing_object_view(array);
                    }
                    if array.len() == 0 {
                        return Err(
                            InterpreterError::at(InterpreterErrorKind::EmptyGlobResult, ident),
                        );
                    }
                    let name = ident.fragment();
                    eval_loop(&array, name.as_str(), statement, state)
                },
                other => Err(
                    InterpreterError::at(
                        InterpreterErrorKind::TypeMismatch {
                            expected: "Array".to_owned(),
                            actual: other.kind(),
                        },
                        ident,
                    ),
                ),
            }
        },
    }
}

/// Evaluates the statements of `nodes` in order.
#[verifier::loop_isolation(false)]
pub fn eval_nodes(nodes: &Vec<Node>, state: &mut State) -> (r: Result<(), InterpreterError>)
    ensures
        match r {
            Ok(_) => after_nodes(nodes_view(nodes@), old(state)@) == Ok::<StateView, Failed>(final(state)@),
            Err(e) => after_nodes(nodes_view(nodes@), old(state)@) == Err::<StateView, Failed>((e@, final(state)@)),
        },
    decreases nodes, 0nat,
{
    let ghost all = nodes_view(nodes@);
    let ghost goal = after_nodes(all, state@);
    let mut k: usize = 0;
    proof {
        assert(all.subrange(0, all.len() as int) =~= all);
    }
    while k < nodes.len()
        invariant
            k <= nodes.len(),
            goal == after_nodes(all.subrange(k as int, all.len() as int), state@),
        decreases nodes.len() - k,
    {
        let ghost tail = all.subrange(k as int, all.len() as int);
        proof {
            assert(tail[0] == nodes@[k as int]@);
            assert(tail.drop_first() =~= all.subrange(k as int + 1, all.len() as int));
        }
        match eval_statement(&nodes[k], state) {
            Ok(_) => {},
            Err(e) => {
                return Err(e);
            },
        }
        k = k + 1;
    }
    proof {
        assert(all.subrange(k as int, all.len() as int) =~= Seq::empty());
    }
    Ok(())
}

/// Runs the statements under `parent` once for each of `items`, with
/// `variable` bound to the item. What a run binds is dropped when it ends,
/// also where it ends in an error.
#[verifier::loop_isolation(false)]
pub fn eval_loop(items: &Vec<Object>, variable: &str, parent: &Node, state: &mut State) -> (r:
    Result<(), InterpreterError>)
    ensures
        match r {
            Ok(_) => after_loop(
                objects_view(items@),
                variable@,
                nodes_view(parent.children@),
                old(state)@,
            ) == Ok::<StateView, Failed>(final(state)@),
            Err(e) => after_loop(
                objects_view(items@),
                variable@,
                nodes_view(parent.children@),
                old(state)@,
            ) == Err::<StateView, Failed>((e@, final(state)@)),
        },
    decreases parent, 0nat,
{
    let ghost all = objects_view(items@);
    let ghost body = nodes_view(parent.children@);
    let ghost goal = after_loop(all, variable@, body, state@);
    let mut k: usize = 0;
    proof {
        assert(all.subrange(0, all.len() as int) =~= all);
    }
    while k < items.len()
        invariant
            k <= items.len(),
            goal == after_loop(all.subrange(k as int, all.len() as int), variable@, body, state@),
        decreases items.len() - k,
    {
        let ghost tail = all.subrange(k as int, all.len() as int);
        proof {
            assert(tail[0] == items@[k as int]@);
            assert(tail.drop_first() =~= all.subrange(k as int + 1, all.len() as int));
        }
        let mark = state.mark();
        state.bind(variable, items[k].clone());
        let ran = eval_nodes(&parent.children, state);
        state.cut(mark);
        match ran {
            Ok(_) => {},
            Err(e) => {
                return Err(e);
            },
        }
        k = k + 1;
    }
    proof {
        assert(all.subrange(k as int, all.len() as int) =~= Seq::empty());
    }
    Ok(())
}

} // verus!
