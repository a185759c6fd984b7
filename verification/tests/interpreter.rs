use astryx::interpreter::error::{InterpreterError, InterpreterErrorKind};
use astryx::interpreter::html::HTMLElement;
use astryx::interpreter::util::{glob_files, import_file, import_files, requests, Request};
use astryx::interpreter::values::{has_unique_names, is_well_formed};
use astryx::parser::span::Span;
use astryx::interpreter::models::{Builtin, Object};
use astryx::interpreter::program::Page;
use astryx::interpreter::state::State;
use astryx::parser;

fn texts(page: &Page) -> Vec<String> {
    let mut out = Vec::new();
    for instruction in &page.program {
        out.push(instruction.text());
    }
    out
}

fn evaluate(source: &str, state: State) -> Result<Vec<Page>, InterpreterError> {
    let nodes = parser::run(source).unwrap();
    astryx::interpreter::run(&nodes, state)
}

#[test]
fn element_with_text_child() {
    let pages = evaluate("%div\n  | hello\n", State::new()).unwrap();
    assert_eq!(pages.len(), 1);
    assert_eq!(pages[0].path, "");
    assert_eq!(texts(&pages[0]), vec!["<div>", "hello", "</div>"]);
}

#[test]
fn binding_feeds_attribute() {
    let nodes = parser::run("x = \"a\"\n%div id=x\n").unwrap();
    let mut state = State::new();
    astryx::interpreter::eval::eval_nodes(&nodes, &mut state).unwrap();
    assert!(matches!(state.get("x"), Some(Object::String(s)) if s == "a"));
    assert_eq!(texts(&state.pages()[0]), vec!["<div id=\"a\">", "</div>"]);
}

#[test]
fn loop_over_glob_in_listing_order() {
    let mut state = State::new();
    state.add_glob(
        "./posts/*.md",
        Ok(vec![
            (String::from("posts/b.md"), String::from("second post")),
            (String::from("posts/a.md"), String::from("first post")),
        ]),
    );
    let pages = evaluate("for post in ./posts/*.md\n  | ${ post }\n", state).unwrap();
    assert_eq!(texts(&pages[0]), vec!["second post", "first post"]);
}

#[test]
fn loop_over_empty_glob_fails() {
    let mut state = State::new();
    state.add_glob("./posts/*.md", Ok(Vec::new()));
    let err = evaluate("for post in ./posts/*.md\n  | ${ post }\n", state).unwrap_err();
    assert!(matches!(err.kind, InterpreterErrorKind::EmptyGlobResult));
}

#[test]
fn method_dispatches_with_self() {
    let mut state = State::new();
    state.register("upper", Builtin::Upper);
    let pages = evaluate("| ${ \"abc\".upper() }\n", state).unwrap();
    assert_eq!(texts(&pages[0]), vec!["ABC"]);
}

#[test]
fn method_that_is_not_registered() {
    let err = evaluate("\"abc\".upper()\n", State::new()).unwrap_err();
    assert!(matches!(err.kind, InterpreterErrorKind::UnresolvedMember(name) if name == "upper"));
    assert_eq!(err.location.unwrap().fragment(), "upper");
}

#[test]
fn loop_bindings_end_with_the_run() {
    let source = "for item in items\n  inner = item\n  | ${ inner }\n| ${ inner }\n";
    let mut state = State::new();
    state.bind(
        "items",
        Object::Array(vec![Object::String(String::from("a")), Object::String(String::from("b"))]),
    );
    let err = evaluate(source, state).unwrap_err();
    assert!(matches!(err.kind, InterpreterErrorKind::UnresolvedReference(name) if name == "inner"));

    let nodes = parser::run("for item in items\n  inner = item\n").unwrap();
    let mut state = State::new();
    state.bind("items", Object::Array(vec![Object::String(String::from("a"))]));
    astryx::interpreter::eval::eval_nodes(&nodes, &mut state).unwrap();
    assert!(state.get("inner").is_none());
    assert!(state.get("item").is_none());
    assert!(state.get("items").is_some());
    assert_eq!(state.mark(), 1);
}

#[test]
fn a_run_does_not_see_the_run_before() {
    let source = "for item in items\n  | ${ seen }\n  seen = item\n";
    let mut state = State::new();
    state.bind("seen", Object::String(String::from("outer")));
    state.bind(
        "items",
        Object::Array(vec![Object::String(String::from("a")), Object::String(String::from("b"))]),
    );
    let pages = evaluate(source, state).unwrap();
    assert_eq!(texts(&pages[0]), vec!["outer", "outer"]);
}

#[test]
fn binding_is_seen_only_after_it() {
    let err = evaluate("| ${ x }\nx = \"late\"\n", State::new()).unwrap_err();
    assert!(matches!(err.kind, InterpreterErrorKind::UnresolvedReference(name) if name == "x"));
    let pages = evaluate("x = \"a\"\n| ${ x }\nx = \"b\"\n| ${ x }\n", State::new()).unwrap();
    assert_eq!(texts(&pages[0]), vec!["a", "b"]);
    let pages = evaluate("%div\n  x = \"in\"\n  %p\n    | ${ x }\n", State::new()).unwrap();
    assert_eq!(texts(&pages[0]), vec!["<div>", "<p>", "in", "</p>", "</div>"]);
}

#[test]
fn comment_children_write_nothing() {
    let pages = evaluate("-- note\n  | hidden\n  %div\n  nothing()\n| shown\n", State::new()).unwrap();
    assert_eq!(texts(&pages[0]), vec!["shown"]);
    let pages = evaluate("-- only a comment\n  | hidden\n", State::new()).unwrap();
    assert_eq!(pages.len(), 0);
}

#[test]
fn listing_order_changes_only_the_order() {
    let source = "for post in ./posts/*.md\n  %p\n    | ${ post }\n";
    let files = vec![
        (String::from("posts/a.md"), String::from("one")),
        (String::from("posts/b.md"), String::from("two")),
        (String::from("posts/c.md"), String::from("three")),
    ];
    let mut forward = State::new();
    forward.add_glob("./posts/*.md", Ok(files.clone()));
    let mut backward = State::new();
    backward.add_glob("./posts/*.md", Ok(files.iter().rev().cloned().collect()));
    let first = texts(&evaluate(source, forward).unwrap()[0]);
    let second = texts(&evaluate(source, backward).unwrap()[0]);
    assert_eq!(first, vec!["<p>", "one", "</p>", "<p>", "two", "</p>", "<p>", "three", "</p>"]);
    assert_ne!(first, second);
    let mut a = first.clone();
    let mut b = second.clone();
    a.sort();
    b.sort();
    assert_eq!(a, b);
}

#[test]
fn pages_group_output() {
    let source = "page(route=\"/index.html\")\n  %h1\n    | home\npage(route=\"/about.html\")\n  | about\n";
    let mut state = State::new();
    state.register("page", Builtin::Page);
    let pages = evaluate(source, state).unwrap();
    assert_eq!(pages.len(), 2);
    assert_eq!(pages[0].path, "/index.html");
    assert_eq!(texts(&pages[0]), vec!["", "<h1>", "home", "</h1>"]);
    assert_eq!(pages[1].path, "/about.html");
    assert_eq!(texts(&pages[1]), vec!["", "about"]);
}

#[test]
fn a_page_started_again_replaces_the_first() {
    let source = "page(route=\"/a\")\n  | one\npage(route=\"/b\")\n  | two\npage(route=\"/a\")\n  | three\n";
    let mut state = State::new();
    state.register("page", Builtin::Page);
    let pages = evaluate(source, state).unwrap();
    assert_eq!(pages.len(), 2);
    assert_eq!(pages[0].path, "/b");
    assert_eq!(pages[1].path, "/a");
    assert_eq!(texts(&pages[1]), vec!["", "three"]);
}

#[test]
fn output_outside_a_page_is_an_orphan() {
    let mut state = State::new();
    state.register("page", Builtin::Page);
    let err = evaluate("%div\n", state).unwrap_err();
    assert!(matches!(err.kind, InterpreterErrorKind::OrphanElement));
}

#[test]
fn evaluation_errors() {
    let err = evaluate("for x in \"text\"\n  | ${ x }\n", State::new()).unwrap_err();
    assert!(matches!(
        &err.kind,
        InterpreterErrorKind::TypeMismatch { expected, actual } if expected == "Array" && actual == "String"
    ));
    assert_eq!(err.location.unwrap().fragment(), "x");

    let err = evaluate("missing\n", State::new()).unwrap_err();
    assert!(matches!(&err.kind, InterpreterErrorKind::UnresolvedReference(n) if n == "missing"));
    let where_ = err.location.unwrap();
    assert_eq!(where_.location_line(), 1);
    assert_eq!(where_.get_column(), 1);

    let err = evaluate("x = \"a\"\nx()\n", State::new()).unwrap_err();
    assert!(matches!(err.kind, InterpreterErrorKind::NotCallable));

    let err = evaluate("| ${ ./missing.txt }\n", State::new()).unwrap_err();
    assert!(matches!(&err.kind, InterpreterErrorKind::IOError(m) if m == "./missing.txt"));

    let mut state = State::new();
    state.add_file("./locked.txt", Err(String::from("permission denied")));
    let err = evaluate("| ${ ./locked.txt }\n", state).unwrap_err();
    assert!(matches!(&err.kind, InterpreterErrorKind::IOError(m) if m == "permission denied"));

    let err = evaluate("%1x\n", State::new()).unwrap_err();
    assert!(matches!(&err.kind, InterpreterErrorKind::InvalidElement(n) if n == "1x"));

    let err = evaluate("4\n", State::new()).unwrap_err();
    assert!(matches!(
        &err.kind,
        InterpreterErrorKind::TypeMismatch { expected, actual } if expected == "String" && actual == "Number"
    ));

    let mut state = State::new();
    state.register("page", Builtin::Page);
    let err = evaluate("page()\n", state).unwrap_err();
    assert!(matches!(&err.kind, InterpreterErrorKind::UnresolvedReference(n) if n == "route"));
}

#[test]
fn members_of_maps_and_files() {
    let mut state = State::new();
    state.bind(
        "post",
        Object::Dict(vec![
            (String::from("title"), Object::String(String::from("Hello"))),
            (
                String::from("author"),
                Object::Dict(vec![(String::from("name"), Object::String(String::from("Ann")))]),
            ),
        ]),
    );
    state.add_file("./logo.svg", Ok(String::from("<svg/>")));
    let pages = evaluate(
        "| ${ post.title } by ${ post.author.name }\n| ${ ./logo.svg }\n| ${ [post.title, \"x\"] }\n",
        state,
    );
    let err = pages.unwrap_err();
    assert!(matches!(
        &err.kind,
        InterpreterErrorKind::TypeMismatch { expected, actual } if expected == "String" && actual == "Array"
    ));

    let mut state = State::new();
    state.bind(
        "post",
        Object::Dict(vec![(String::from("title"), Object::String(String::from("Hello")))]),
    );
    state.add_file("./logo.svg", Ok(String::from("<svg/>")));
    let pages = evaluate("| ${ post.title }!\n| ${ ./logo.svg }\n", state).unwrap();
    assert_eq!(texts(&pages[0]), vec!["Hello!", "<svg/>"]);

    let mut state = State::new();
    state.bind("post", Object::Dict(Vec::new()));
    let err = evaluate("| ${ post.title }\n", state).unwrap_err();
    assert!(matches!(&err.kind, InterpreterErrorKind::UnresolvedMember(n) if n == "title"));
}

#[test]
fn inspect_shows_values() {
    assert_eq!(Object::String(String::from("a\"b")).inspect(), "\"a\\\"b\"");
    assert_eq!(Object::BuiltinFunction(Builtin::Page).inspect(), "builtin_page()");
    assert_eq!(
        Object::Array(vec![Object::String(String::from("a")), Object::Array(Vec::new())]).inspect(),
        "[\"a\", []]"
    );
    assert_eq!(
        Object::Dict(vec![(String::from("k"), Object::String(String::from("v")))]).inspect(),
        "{k: \"v\"}"
    );
    assert_eq!(Object::BuiltinFunction(Builtin::Upper).to_string().unwrap(), "__BuiltinFunction");
    assert!(Object::Array(Vec::new()).to_string().is_none());
}

#[test]
fn requests_list_paths_and_patterns() {
    let nodes = parser::run(
        "for post in ./posts/*.md\n  | ${ ./header.txt }\n-- skipped\n  | ${ ./never.txt }\n%img src=./logo.svg\n",
    )
    .unwrap();
    let wanted = requests(&nodes);
    assert_eq!(wanted.len(), 3);
    assert!(matches!(&wanted[0], Request::Glob(p) if p == "./posts/*.md"));
    assert!(matches!(&wanted[1], Request::File(p) if p == "./header.txt"));
    assert!(matches!(&wanted[2], Request::File(p) if p == "./logo.svg"));
}

#[test]
fn tags_are_built_from_names_and_attributes() {
    let element = HTMLElement::new(
        "a",
        vec![
            (String::from("href"), String::from("/x")),
            (String::from("class"), String::from("big")),
        ],
    )
    .unwrap();
    assert_eq!(element.open_tag(), "<a href=\"/x\" class=\"big\">");
    assert_eq!(element.close_tag(), "</a>");
    assert!(HTMLElement::new("", Vec::new()).is_none());
    assert!(HTMLElement::new("a-b", Vec::new()).is_none());
    let pages = evaluate("%a href=\"/x\" href=\"/y\" id=\"z\"\n", State::new()).unwrap();
    assert_eq!(texts(&pages[0]), vec!["<a href=\"/y\" id=\"z\">", "</a>"]);
}

#[test]
fn maps_hold_each_name_once() {
    let twice = vec![
        (String::from("a"), Object::String(String::from("1"))),
        (String::from("b"), Object::String(String::from("2"))),
        (String::from("a"), Object::String(String::from("3"))),
    ];
    assert!(!has_unique_names(&twice));
    assert!(has_unique_names(&twice[0..2].to_vec()));
    assert!(!is_well_formed(&Object::Array(vec![Object::Dict(twice.clone())])));
    assert!(is_well_formed(&Object::Array(vec![
        Object::Dict(twice[1..3].to_vec()),
        Object::String(String::from("x")),
    ])));
    assert!(!is_well_formed(&Object::Dict(vec![(
        String::from("inner"),
        Object::Dict(twice.clone())
    )])));
    let mut state = State::new();
    state.bind("m", Object::Dict(twice));
    let pages = evaluate("| ${ m.a }\n", state).unwrap();
    assert_eq!(texts(&pages[0]), vec!["1"]);
}

#[test]
fn paths_on_disk_start_in_the_directory() {
    assert_eq!(State::new().get_state_relative_path("./a.txt"), "./a.txt");
    assert_eq!(State::in_directory(None).get_state_relative_path("a.txt"), "a.txt");
    assert_eq!(
        State::in_directory(Some("site")).get_state_relative_path("posts/*.md"),
        "./site/posts/*.md"
    );
}

#[test]
fn the_state_answers_for_the_file_system() {
    let mut state = State::new();
    state.add_file("./a.txt", Ok(String::from("first")));
    state.add_file("./a.txt", Ok(String::from("second")));
    state.add_glob(
        "*.md",
        Ok(vec![
            (String::from("b.md"), String::from("B")),
            (String::from("a.md"), String::from("A")),
        ]),
    );
    state.add_glob("*.txt", Err(String::from("bad pattern")));
    assert!(matches!(import_file(&state, &Span::new("./a.txt")), Ok(Object::String(s)) if s == "second"));
    assert!(matches!(import_files(&state, &Span::new("*.md")), Ok(Object::Listing(items)) if items.len() == 2));
    assert_eq!(import_files(&state, &Span::new("*.md")).unwrap().inspect(), "[\"B\", \"A\"]");
    assert_eq!(glob_files(&state, &Span::new("*.md")).unwrap().inspect(), "[\"b.md\", \"a.md\"]");
    let err = glob_files(&state, &Span::new("*.txt")).unwrap_err();
    assert!(matches!(&err.kind, InterpreterErrorKind::IOError(m) if m == "bad pattern"));
    let err = import_files(&state, &Span::new("*.rs")).unwrap_err();
    assert!(matches!(&err.kind, InterpreterErrorKind::IOError(m) if m == "*.rs"));
}

#[test]
fn pages_are_rendered_as_text() {
    let source = "page(route=\"/index.html\")\n  %h1 class=\"big\"\n    | home\npage(route=\"/about.html\")\n";
    let mut state = State::new();
    state.register("page", Builtin::Page);
    let pages = evaluate(source, state).unwrap();
    assert_eq!(pages[0].render(), "<h1 class=\"big\">home</h1>");
    let project = astryx::interpreter::program::render_project(&pages);
    assert_eq!(
        project,
        vec![
            (String::from("/index.html"), String::from("<h1 class=\"big\">home</h1>")),
            (String::from("/about.html"), String::new()),
        ]
    );
}

#[test]
fn a_failing_loop_leaves_the_scope_as_it_was() {
    let nodes = parser::run("for item in items\n  m = item\n  | ${ missing }\n").unwrap();
    let mut state = State::new();
    state.bind("m", Object::String(String::from("w")));
    state.bind("items", Object::Array(vec![Object::String(String::from("a"))]));
    let err = astryx::interpreter::eval::eval_nodes(&nodes, &mut state).unwrap_err();
    assert!(matches!(&err.kind, InterpreterErrorKind::UnresolvedReference(n) if n == "missing"));
    assert!(matches!(state.get("m"), Some(Object::String(s)) if s == "w"));
    assert!(state.get("item").is_none());
    assert_eq!(state.mark(), 2);
    assert_eq!(state.pages().len(), 0);
}

#[test]
fn an_error_leaves_what_was_written_before_it() {
    let nodes = parser::run("| first\n%div\n  | ${ missing }\n| never\n").unwrap();
    let mut state = State::new();
    let err = astryx::interpreter::eval::eval_nodes(&nodes, &mut state).unwrap_err();
    assert!(matches!(&err.kind, InterpreterErrorKind::UnresolvedReference(n) if n == "missing"));
    assert_eq!(texts(&state.pages()[0]), vec!["first", "<div>"]);

    let mut state = State::new();
    state.register("page", Builtin::Page);
    let nodes = parser::run("| orphan\n").unwrap();
    let err = astryx::interpreter::eval::eval_nodes(&nodes, &mut state).unwrap_err();
    assert!(matches!(err.kind, InterpreterErrorKind::OrphanElement));
    assert_eq!(state.pages().len(), 0);
    assert_eq!(state.mark(), 1);

    let mut state = State::new();
    let nodes = parser::run("\"abc\".upper()\n").unwrap();
    assert!(astryx::interpreter::eval::eval_nodes(&nodes, &mut state).is_err());
    assert_eq!(state.pages().len(), 0);
    assert_eq!(state.mark(), 0);
}

#[test]
fn a_loop_over_nothing_is_an_empty_glob() {
    let mut state = State::new();
    state.add_glob("./posts/*.md", Ok(Vec::new()));
    let err = evaluate("posts = ./posts/*.md\nfor post in posts\n  | ${ post }\n", state).unwrap_err();
    assert!(matches!(err.kind, InterpreterErrorKind::EmptyGlobResult));
    assert_eq!(err.location.unwrap().fragment(), "post");
    let pages = evaluate("for x in []\n  | ${ x }\n| after\n", State::new()).unwrap();
    assert_eq!(texts(&pages[0]), vec!["after"]);
    let mut state = State::new();
    state.bind("none", Object::Array(Vec::new()));
    assert_eq!(evaluate("for x in none\n  | ${ x }\n", state).unwrap().len(), 0);
}

#[test]
fn embed_writes_the_text_of_a_file() {
    let mut state = State::new();
    state.register("embed", Builtin::Embed);
    state.add_file("./logo.svg", Ok(String::from("<svg/>")));
    let pages = evaluate("%div\n  embed(path=./logo.svg)\n", state).unwrap();
    assert_eq!(texts(&pages[0]), vec!["<div>", "<svg/>", "</div>"]);

    let mut state = State::new();
    state.register("embed", Builtin::Embed);
    let err = evaluate("embed(path=./missing.svg)\n", state).unwrap_err();
    assert!(matches!(&err.kind, InterpreterErrorKind::IOError(m) if m == "./missing.svg"));

    let mut state = State::new();
    state.register("embed", Builtin::Embed);
    let err = evaluate("embed()\n", state).unwrap_err();
    assert!(matches!(&err.kind, InterpreterErrorKind::UnresolvedReference(n) if n == "path"));
    assert_eq!(Object::BuiltinFunction(Builtin::Embed).inspect(), "builtin_embed()");
}

#[test]
fn get_resolves_dotted_names() {
    let mut state = State::new();
    state.bind(
        "a",
        Object::Dict(vec![
            (String::from("rest"), Object::String(String::from("m"))),
            (
                String::from("inner"),
                Object::Dict(vec![(String::from("deep"), Object::String(String::from("d")))]),
            ),
        ]),
    );
    state.bind("s", Object::String(String::from("text")));
    assert!(matches!(state.get("a.rest"), Some(Object::String(m)) if m == "m"));
    assert!(matches!(state.get("a.inner.deep"), Some(Object::String(d)) if d == "d"));
    assert!(matches!(state.get("a"), Some(Object::Dict(_))));
    assert!(state.get("a.none").is_none());
    assert!(state.get("s.rest").is_none());
    assert!(state.get("b.rest").is_none());
    assert!(state.lookup("a.rest").is_none());
    assert!(matches!(state.find("a.none"), Err(Some(k)) if k == "none"));
    assert!(matches!(state.find("b.rest"), Err(None)));
}

#[test]
fn a_page_starts_with_its_head() {
    let source = "page(route=\"/a\", title=\"Home\", stylesheet=\"main.css\")\n  | body\npage(route=\"/b\", title=\"T\")\npage(route=\"/c\", stylesheet=\"s.css\", title=[])\n";
    let mut state = State::new();
    state.register("page", Builtin::Page);
    let pages = evaluate(source, state).unwrap();
    assert_eq!(
        texts(&pages[0]),
        vec![
            "<title>",
            "Home",
            "</title>",
            "<link rel=\"stylesheet\" href=\"/main.css\">",
            "",
            "body"
        ]
    );
    assert_eq!(texts(&pages[1]), vec!["<title>", "T", "</title>", ""]);
    assert_eq!(texts(&pages[2]), vec!["<link rel=\"stylesheet\" href=\"/s.css\">", ""]);
}
