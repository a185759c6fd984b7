use astryx::interpolation::{interpolate, interpolate_reference, interpolate_text};
use astryx::repl::{command, crop_letters, Command};
use astryx::variable::{
    get_required_variable, stringify_variable, stringify_variables, AstryxError, TemplateFile,
    Variable,
};

#[test]
fn check_interpolate_reference() {
    let (r, i) = interpolate_reference("${ post.url }").unwrap();
    assert_eq!(r, "");
    assert_eq!(i, "post.url");
}

#[test]
fn check_interpolate_text() {
    let (r, i) = interpolate_text("blah ${ post.url }").unwrap();
    assert_eq!(r, "${ post.url }");
    assert_eq!(i, "blah ");
}

fn post() -> Vec<(String, Variable)> {
    vec![
        (
            String::from("post"),
            Variable::TemplateFile(TemplateFile {
                body: String::from("the body"),
                metadata: Some(vec![(String::from("url"), String::from("/first"))]),
            }),
        ),
        (String::from("title"), Variable::QuotedString(String::from("Hello"))),
        (String::from("alias"), Variable::Reference(String::from("title"))),
        (String::from("loop"), Variable::Reference(String::from("loop"))),
    ]
}

#[test]
fn check_interpolate() {
    let r = interpolate("this is a ${ post }.", &Vec::new());
    assert!(matches!(r, Err(AstryxError::VariableNotFound(name)) if name == "post"));
}

#[test]
fn interpolate_replaces_references() {
    let locals = post();
    assert_eq!(
        interpolate("this is a ${ title }, by ${alias}!", &locals).unwrap(),
        "this is a Hello, by Hello!"
    );
    let x = vec![(String::from("x"), Variable::QuotedString(String::from("v")))];
    assert_eq!(interpolate("a ${ x } b", &x).unwrap(), "a v b");
    assert_eq!(interpolate("no reference", &locals).unwrap(), "no reference");
    assert_eq!(interpolate("", &locals).unwrap(), "");
    assert_eq!(interpolate("${ post }", &locals).unwrap(), "the body");
    assert_eq!(interpolate("  ${ alias }${title}", &locals).unwrap(), "HelloHello");
}

#[test]
fn interpolate_reports_failures() {
    let locals = post();
    assert!(matches!(
        interpolate("this is a ${ post }.", &Vec::new()),
        Err(AstryxError::VariableNotFound(name)) if name == "post"
    ));
    assert!(matches!(interpolate("a ${ }", &locals), Err(AstryxError::Malformed)));
    assert!(matches!(
        interpolate("${ post.missing }", &locals),
        Err(AstryxError::VariableNotFound(name)) if name == "post.missing"
    ));
    assert!(matches!(
        interpolate("${ loop }", &locals),
        Err(AstryxError::CircularReference(name)) if name == "loop"
    ));
}

#[test]
fn stringify_follows_references() {
    let locals = post();
    assert_eq!(
        stringify_variable(&Variable::RelativePath(String::from("./a")), &locals).unwrap(),
        "./a"
    );
    assert_eq!(
        stringify_variable(&Variable::Reference(String::from("post.url")), &locals).unwrap(),
        "/first"
    );
    assert!(matches!(
        stringify_variable(&Variable::Reference(String::from("post.date")), &locals),
        Err(AstryxError::ReferenceNotFound(name)) if name == "date"
    ));
    assert!(matches!(
        stringify_variable(&Variable::Reference(String::from("nobody")), &locals),
        Err(AstryxError::ReferenceNotFound(name)) if name == "nobody"
    ));
    let all = stringify_variables(&locals[0..3].iter().map(|(n, v)| (n.clone(), v.clone())).collect(), &locals).unwrap();
    assert_eq!(all.len(), 3);
    assert_eq!(all[0], (String::from("post"), String::from("the body")));
    assert_eq!(all[2], (String::from("alias"), String::from("Hello")));
}

#[test]
fn variable_to_string_and_display() {
    assert_eq!(Variable::QuotedString(String::from("q")).to_string().unwrap(), "q");
    assert_eq!(Variable::RelativePath(String::from("./p")).to_string().unwrap(), "./p");
    assert!(matches!(
        Variable::Reference(String::from("r")).to_string(),
        Err(AstryxError::CannotToString)
    ));
    assert_eq!(Variable::Reference(String::from("r")).display(), "r");
    assert!(matches!(
        get_required_variable("title", &post()),
        Ok(Variable::QuotedString(s)) if s == "Hello"
    ));
    assert!(matches!(
        get_required_variable("none", &post()),
        Err(AstryxError::VariableNotFound(name)) if name == "none"
    ));
}

#[test]
fn crop_letters_drops_characters() {
    assert_eq!(crop_letters(":page()", 1), "page()");
    assert_eq!(crop_letters("héllo", 2), "llo");
    assert_eq!(crop_letters("ab", 2), "");
    assert_eq!(crop_letters("ab", 5), "");
    assert_eq!(crop_letters("ab", 0), "ab");
}

#[test]
fn commands_of_a_session() {
    assert!(matches!(command(":page()"), Command::Ast(s) if s == "page()"));
    assert!(matches!(command(".quit"), Command::Quit));
    assert!(matches!(command(".exit"), Command::Quit));
    assert!(matches!(command(".q"), Command::Quit));
    assert!(matches!(command(".state"), Command::State));
    assert!(matches!(command(".s"), Command::State));
    assert!(matches!(command(".help"), Command::Unknown(s) if s == ".help"));
    assert!(matches!(command("%div"), Command::Evaluate(s) if s == "%div"));
}
