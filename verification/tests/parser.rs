use astryx::parser::element::{attribute_assignment, element};
use astryx::parser::error::ParserErrorKind;
use astryx::parser::expression::expression;
use astryx::parser::linesplit::{line_indent, take_children, take_lines, Line};
use astryx::parser::models::{Expression, Literal, Statement, StringToken};
use astryx::parser::run;
use astryx::parser::span::Span;
use astryx::parser::statement::statement;
use astryx::parser::text::{interpolated_expression, piped_string, tokenised_string};
use astryx::parser::variable::{literal, number, relative_path};

#[test]
fn test_run() {
    assert!(run("").is_ok());
    assert!(run("page()\n").is_ok());
    assert!(run("page()\ndiv()\n").is_ok());
}

#[test]
fn test_take_lines() {
    assert!(take_lines("").is_ok());
}

#[test]
fn test_piped_string() {
    assert!(piped_string(Span::new_extra("", "")).is_err());
    assert!(piped_string(Span::new_extra("| ", "")).is_ok());
    assert!(piped_string(Span::new_extra("| hi", "")).is_ok());
}

#[test]
fn test_interpolated_expression() {
    assert!(interpolated_expression(Span::new_extra("", "")).is_err());
}

#[test]
fn test_literal() {
    assert_eq!(
        literal(Span::new("4")).unwrap().1.inspect(),
        String::from("4")
    );
}

#[test]
fn line_indent_counts_spaces_and_tabs() {
    assert_eq!(line_indent(""), 0);
    assert_eq!(line_indent("abc"), 0);
    assert_eq!(line_indent("  abc"), 2);
    assert_eq!(line_indent(" \t abc"), 3);
    assert_eq!(line_indent("   "), 3);
}

#[test]
fn lines_nest_by_indentation() {
    let (rest, lines) = take_lines("a\n\tb\nc\n\td\n").unwrap();
    assert_eq!(rest.fragment(), "");
    assert_eq!(lines.len(), 2);
    assert_eq!(lines[0].content.fragment(), "a");
    assert_eq!(lines[0].children.len(), 1);
    assert_eq!(lines[0].children[0].content.fragment(), "b");
    assert_eq!(lines[0].children[0].content.extra(), "\tb");
    assert_eq!(lines[1].content.fragment(), "c");
    assert_eq!(lines[1].children[0].content.fragment(), "d");
    assert_eq!(lines[1].children[0].content.location_line(), 4);
    assert_eq!(lines[1].children[0].content.get_column(), 2);
    assert_eq!(lines[1].children[0].content.location_offset(), 8);
}

#[test]
fn text_line_splits_into_pieces() {
    let nodes = run("| this is a ${ post }.\n").unwrap();
    assert_eq!(nodes.len(), 1);
    match &nodes[0].statement {
        Statement::Text(tokens) => {
            assert_eq!(tokens.len(), 3);
            assert!(matches!(&tokens[0], StringToken::Text(t) if t.fragment() == "this is a "));
            assert!(matches!(&tokens[1], StringToken::Expression(Expression::Reference(r)) if r.fragment() == "post"));
            assert!(matches!(&tokens[2], StringToken::Text(t) if t.fragment() == "."));
        }
        other => panic!("not a text line: {:?}", other),
    }
}

#[test]
fn method_call_on_a_string() {
    let nodes = run("\"abc\".upper()\n").unwrap();
    match &nodes[0].statement {
        Statement::Expression(Expression::Index(l, r)) => {
            assert!(matches!(&**l, Expression::Literal(Literal::String(s)) if s.fragment() == "abc"));
            match &**r {
                Expression::FunctionCall(f) => {
                    assert!(matches!(&*f.ident, Expression::Reference(n) if n.fragment() == "upper"));
                    assert_eq!(f.arguments.len(), 0);
                }
                other => panic!("not a call: {:?}", other),
            }
        }
        other => panic!("not a member: {:?}", other),
    }
}

#[test]
fn numbers_are_read_as_the_float_recogniser_reads_them() {
    let inputs = [
        "4", "4.5", "4.", ".5", "+1", "-1.25e3", "1e", "1e+", "1E-7x", "1.2.3", "e5", "", ".",
        "-", "+.e1", "12abc", "0x10", "1_000", "inf", "nan", "7e2e3", "٣", "1e٣", "--1",
    ];
    for input in inputs {
        let span = Span::new(input);
        let ours = number(&span, 0);
        let theirs: Result<(&str, &str), nom::Err<nom::error::Error<&str>>> =
            nom::number::complete::recognize_float(input);
        match theirs {
            Ok((rest, taken)) => {
                assert_eq!(ours, Some(taken.chars().count()), "on {:?}", input);
                assert_eq!(span.rest(ours.unwrap()).fragment(), rest);
            }
            Err(_) => assert_eq!(ours, None, "on {:?}", input),
        }
    }
}

#[test]
fn literals_keep_their_text() {
    let (rest, value) = literal(Span::new("\"abc\" tail")).unwrap();
    assert_eq!(rest.fragment(), " tail");
    assert_eq!(value.inspect(), "\"abc\"");
    let (rest, value) = literal(Span::new("-1.5e3)")).unwrap();
    assert_eq!(rest.fragment(), ")");
    assert_eq!(value.inspect(), "-1.5e3");
    let (rest, value) = literal(Span::new("\"\"")).unwrap();
    assert_eq!(rest.fragment(), "");
    assert!(matches!(&value, Literal::String(s) if s.fragment() == ""));
    assert_eq!(value.inspect(), "\"\"");
    let err = literal(Span::new("x")).unwrap_err();
    assert_eq!(err.kind, ParserErrorKind::UnexpectedToken(String::from("variable")));
    assert_eq!(err.pos.fragment(), "x");
    assert!(literal(Span::new("\"open")).is_err());
    let nodes = run("x = \"\"\n").unwrap();
    assert!(matches!(
        &nodes[0].statement,
        Statement::Binding(_, Expression::Literal(Literal::String(s))) if s.fragment() == ""
    ));
}

#[test]
fn relative_paths_keep_their_prefix() {
    let (rest, path) = relative_path(Span::new("./test.txt rest")).unwrap();
    assert_eq!(path.fragment(), "./test.txt");
    assert_eq!(rest.fragment(), " rest");
    assert_eq!(path.location_offset(), 0);
    let (rest, path) = relative_path(Span::new("./test.txt")).unwrap();
    assert_eq!(path.fragment(), "./test.txt");
    assert_eq!(rest.fragment(), "");
    let (_, path) = relative_path(Span::new("../../test.txt")).unwrap();
    assert_eq!(path.fragment(), "../../test.txt");
    let err = relative_path(Span::new("test.txt")).unwrap_err();
    assert!(matches!(&err.kind, ParserErrorKind::UnexpectedToken(t) if t == "gg"));
    assert_eq!(err.pos.fragment(), "test.txt");
    let err = relative_path(Span::new("./ x")).unwrap_err();
    assert_eq!(err.pos.fragment(), " x");
    assert_eq!(err.context.fragment(), "./ x");
    assert!(relative_path(Span::new("./GHI")).is_err());
}

#[test]
fn expressions_of_every_form() {
    let (rest, e) = expression(Span::new("post.title rest")).unwrap();
    assert_eq!(rest.fragment(), " rest");
    assert!(matches!(e, Expression::Reference(r) if r.fragment() == "post.title"));

    let (_, e) = expression(Span::new("./posts/*.md")).unwrap();
    assert!(matches!(e, Expression::GlobPattern(p) if p.fragment() == "./posts/*.md"));
    let (_, e) = expression(Span::new("posts/*.md")).unwrap();
    assert!(matches!(e, Expression::GlobPattern(p) if p.fragment() == "posts/*.md"));
    let (_, e) = expression(Span::new("../logo.svg")).unwrap();
    assert!(matches!(e, Expression::RelativePath(p) if p.fragment() == "../logo.svg"));

    let (_, e) = expression(Span::new("[ \"a\" , b,[] ]")).unwrap();
    match e {
        Expression::Array(items) => {
            assert_eq!(items.len(), 3);
            assert!(matches!(&items[0], Expression::Literal(Literal::String(s)) if s.fragment() == "a"));
            assert!(matches!(&items[1], Expression::Reference(s) if s.fragment() == "b"));
            assert!(matches!(&items[2], Expression::Array(inner) if inner.is_empty()));
        }
        other => panic!("not an array: {:?}", other),
    }

    let (_, e) = expression(Span::new("page(route=\"/\", title = x stylesheet=./s.css)")).unwrap();
    match e {
        Expression::FunctionCall(f) => {
            assert!(matches!(&*f.ident, Expression::Reference(n) if n.fragment() == "page"));
            assert_eq!(f.arguments.len(), 3);
            assert_eq!(f.arguments[0].0.fragment(), "route");
            assert_eq!(f.arguments[1].0.fragment(), "title");
            assert_eq!(f.arguments[2].0.fragment(), "stylesheet");
            assert!(matches!(&f.arguments[2].1, Expression::RelativePath(_)));
        }
        other => panic!("not a call: {:?}", other),
    }

    let (_, e) = expression(Span::new("a.b.c(x=1).d")).unwrap();
    match e {
        Expression::Index(l, r) => {
            assert!(matches!(&*r, Expression::Reference(d) if d.fragment() == "d"));
            match &*l {
                Expression::Index(base, call) => {
                    assert!(matches!(&**base, Expression::Reference(n) if n.fragment() == "a.b"));
                    assert!(matches!(&**call, Expression::FunctionCall(_)));
                }
                other => panic!("not a method call: {:?}", other),
            }
        }
        other => panic!("not a member: {:?}", other),
    }

    assert!(expression(Span::new("f(x=)")).is_err());
    assert!(expression(Span::new("[a,]")).is_err());
    let err = expression(Span::new("(")).unwrap_err();
    assert!(matches!(err.kind, ParserErrorKind::SyntaxError));
}

#[test]
fn statements_of_every_form() {
    let nodes = run("%a href=\"/x\" class = big\n  | text\n-- a comment\nfor p in posts\n  p()\nx = [a]\nx\n").unwrap();
    assert_eq!(nodes.len(), 5);
    match &nodes[0].statement {
        Statement::Element(e) => {
            assert_eq!(e.ident.fragment(), "a");
            assert_eq!(e.attributes.len(), 2);
            assert_eq!(e.attributes[1].0.fragment(), "class");
        }
        other => panic!("not an element: {:?}", other),
    }
    assert_eq!(nodes[0].children.len(), 1);
    assert!(matches!(&nodes[1].statement, Statement::Comment(c) if c.fragment() == " a comment"));
    assert!(matches!(&nodes[2].statement, Statement::ForLoop { ident, .. } if ident.fragment() == "p"));
    assert!(matches!(&nodes[2].children[0].statement, Statement::Expression(Expression::FunctionCall(_))));
    assert!(matches!(&nodes[3].statement, Statement::Binding(n, Expression::Array(_)) if n.fragment() == "x"));
    assert!(matches!(&nodes[4].statement, Statement::Expression(Expression::Reference(_))));
}

#[test]
fn syntax_errors_name_the_line() {
    let err = run("%div\n  | ${ open\n").unwrap_err();
    assert!(matches!(err.kind, ParserErrorKind::SyntaxError));
    assert_eq!(err.pos.fragment(), "| ${ open");
    assert_eq!(err.pos.extra(), "  | ${ open");
    assert_eq!(err.pos.location_line(), 2);
    assert_eq!(err.pos.get_column(), 3);
    assert_eq!(err.pos.location_offset(), 7);

    let err = run("page()\n\n").unwrap_err();
    assert_eq!(err.pos.fragment(), "");
    assert_eq!(err.pos.location_line(), 2);

    let err = run("ok()\n%div").unwrap_err();
    assert!(matches!(err.kind, ParserErrorKind::SyntaxError));
    assert_eq!(err.pos.fragment(), "%div");
    assert_eq!(err.pos.location_line(), 2);


    let err = piped_string(Span::new("| a ${ b")).unwrap_err();
    assert!(matches!(err.kind, ParserErrorKind::SyntaxError));
    assert_eq!(err.pos.fragment(), "${ b");
    assert_eq!(err.context.fragment(), "| a ${ b");
    let err = piped_string(Span::new("|a")).unwrap_err();
    assert!(matches!(err.kind, ParserErrorKind::Unhandled));
}

#[test]
fn flattening_the_lines_gives_the_source_back() {
    let source = "a\n  b\n    c\n  d\n\n\te f\n";
    let (_, lines) = take_lines(source).unwrap();
    fn flatten(lines: &[Line], out: &mut Vec<(String, String)>) {
        for line in lines {
            out.push((line.content.fragment(), line.content.extra()));
            flatten(&line.children, out);
        }
    }
    let mut flat = Vec::new();
    flatten(&lines, &mut flat);
    let contents: Vec<&str> = flat.iter().map(|(c, _)| c.as_str()).collect();
    assert_eq!(contents, vec!["a", "b", "c", "d", "", "e f"]);
    let mut joined = String::new();
    for (_, whole) in &flat {
        joined.push_str(whole);
        joined.push('\n');
    }
    assert_eq!(joined, source);
    assert_eq!(lines.len(), 2);
    assert_eq!(lines[0].children.len(), 2);
    assert_eq!(lines[1].children.len(), 1);
}

#[test]
fn spans_count_bytes_and_lines() {
    let span = Span::new("é\nxy");
    assert_eq!(span.len(), 4);
    let tail = span.rest(3);
    assert_eq!(tail.fragment(), "y");
    assert_eq!(tail.location_offset(), 4);
    assert_eq!(tail.location_line(), 2);
    assert_eq!(tail.get_column(), 2);
    let first = span.slice(0, 1);
    assert_eq!(first.fragment(), "é");
    assert_eq!(first.location_offset(), 0);
    assert_eq!(first.get_column(), 1);
    assert_eq!(span.slice(1, 2).get_column(), 3);
    assert_eq!(Span::new_extra("a", "whole").rest(1).extra(), "whole");
}

#[test]
fn elements_and_attributes() {
    let (rest, e) = element(Span::new("%img src=./a.png alt=\"x\" tail")).unwrap();
    assert_eq!(e.ident.fragment(), "img");
    assert_eq!(e.attributes.len(), 2);
    assert_eq!(rest.fragment(), " tail");
    assert!(element(Span::new("div")).is_err());
    assert!(element(Span::new("%")).is_err());
    let err = element(Span::new("%a href=")).unwrap_err();
    assert!(matches!(err.kind, ParserErrorKind::SyntaxError));
    let (rest, (name, _)) = attribute_assignment(Span::new("id  = x y")).unwrap();
    assert_eq!(name.fragment(), "id");
    assert_eq!(rest.fragment(), " y");
    let err = attribute_assignment(Span::new("id")).unwrap_err();
    assert!(matches!(err.kind, ParserErrorKind::Unhandled));
    let err = attribute_assignment(Span::new("id=")).unwrap_err();
    assert!(matches!(err.kind, ParserErrorKind::SyntaxError));
    let (rest, tokens) = tokenised_string(Span::new("a${b}c\nnext")).unwrap();
    assert_eq!(tokens.len(), 3);
    assert_eq!(rest.fragment(), "\nnext");
    let (rest, st) = statement(Span::new("x = 1  ")).unwrap();
    assert_eq!(rest.fragment(), "");
    assert!(matches!(st, Statement::Binding(_, _)));
    assert!(statement(Span::new("x = 1 y")).is_err());
}

#[test]
fn spans_stand_where_located_spans_stand() {
    let sources = ["", "abc", "a\nb", "é\nxy", "\n\n x\ty\n", "%div\n  | hé ${ x }\n", "日本\n語"];
    for source in sources {
        let ours = Span::new(source);
        let theirs = nom_locate::LocatedSpan::new(source);
        let mut chars = 0;
        for (bytes, _) in source.char_indices().chain(std::iter::once((source.len(), ' '))) {
            let cut = ours.rest(chars);
            let other = nom::Slice::slice(&theirs, bytes..);
            assert_eq!(cut.fragment(), *other.fragment(), "in {:?}", source);
            assert_eq!(cut.location_offset(), other.location_offset(), "in {:?}", source);
            assert_eq!(cut.location_line(), other.location_line() as usize, "in {:?}", source);
            assert_eq!(cut.get_column(), other.get_column(), "in {:?}", source);
            chars += 1;
        }
    }
}

#[test]
fn parse_takes_any_source() {
    let nodes = astryx::parser::parse("%div\n  | hello\n").unwrap().unwrap();
    assert_eq!(nodes.len(), 1);
    assert_eq!(nodes[0].children.len(), 1);
    assert!(astryx::parser::parse("%div\n   | ${\n").unwrap().is_err());
}

#[test]
fn a_line_indented_by_less_is_the_next_at_the_top() {
    let (rest, lines) = take_lines("  a\nb\n").unwrap();
    assert_eq!(rest.fragment(), "");
    assert_eq!(lines.len(), 2);
    assert_eq!(lines[0].content.fragment(), "a");
    assert_eq!(lines[0].content.extra(), "  a");
    assert_eq!(lines[0].children.len(), 0);
    assert_eq!(lines[1].content.fragment(), "b");
    assert_eq!(lines[1].children.len(), 0);

    let (_, lines) = take_lines("    a\n      b\n  c\n   d\ne\n").unwrap();
    assert_eq!(lines.len(), 3);
    assert_eq!(lines[0].children[0].content.fragment(), "b");
    assert_eq!(lines[1].content.fragment(), "c");
    assert_eq!(lines[1].children[0].content.fragment(), "d");
    assert_eq!(lines[2].content.fragment(), "e");

    let nodes = run("  a()\nb()\n").unwrap();
    assert_eq!(nodes.len(), 2);
}

#[test]
fn single_lines_and_their_children() {
    let span = Span::new("a\n  b\nc\n");
    let (indent, content, next) = astryx::parser::linesplit::line(&span, 2).unwrap();
    assert_eq!(indent, 2);
    assert_eq!(content.fragment(), "b");
    assert_eq!(next, 6);
    let (tree, end) = take_children(&span, 0).unwrap();
    assert_eq!(tree.content.fragment(), "a");
    assert_eq!(tree.children.len(), 1);
    assert_eq!(end, 6);
    assert!(astryx::parser::linesplit::line(&span, 8).is_none());
    assert!(take_children(&span, 8).is_none());
    let open = Span::new("a\nb");
    assert!(astryx::parser::linesplit::line(&open, 0).is_none());
    assert!(take_children(&open, 0).is_none());
    assert!(astryx::parser::linesplit::line(&Span::new(""), 0).is_none());
}
