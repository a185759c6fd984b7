//! Variables of templates, and their text.

use vstd::prelude::*;
use crate::interpreter::assoc::{first_of, lemma_first_of, same_text};
use crate::parser::chars::{from_chars, run_end, scan, to_chars, CharClass};

verus! {

/// A document that a template reads: its text, and the entries of its
/// front matter that hold a string, each under its name.
#[derive(Debug)]
pub struct TemplateFile {
    pub body: String,
    pub metadata: Option<Vec<(String, String)>>,
}

#[derive(Debug)]
pub enum Variable {
    RelativePath(String),
    QuotedString(String),
    Reference(String),
    TemplateFile(TemplateFile),
}

/// Why a variable has no text.
#[derive(Debug)]
pub enum AstryxError {
    /// The variable is of a kind that is not turned into text.
    CannotToString,
    /// Nothing is known under the name.
    ReferenceNotFound(String),
    /// The variable that is needed is not there.
    VariableNotFound(String),
    /// A reference leads on to references more often than there are names.
    CircularReference(String),
    /// `${` without a name and `}` behind it.
    Malformed,
}

pub struct TemplateFileView {
    pub body: Seq<char>,
    pub metadata: Option<Seq<(Seq<char>, Seq<char>)>>,
}

pub enum VariableView {
    RelativePath(Seq<char>),
    QuotedString(Seq<char>),
    Reference(Seq<char>),
    TemplateFile(TemplateFileView),
}

pub enum AstryxErrorView {
    CannotToString,
    ReferenceNotFound(Seq<char>),
    VariableNotFound(Seq<char>),
    CircularReference(Seq<char>),
    Malformed,
}

/// What a vector of entries of front matter stands for.
pub open spec fn entries_view(entries: Seq<(String, String)>) -> Seq<(Seq<char>, Seq<char>)> {
    Seq::new(entries.len(), |k: int| (entries[k].0@, entries[k].1@))
}

impl View for TemplateFile {
    type V = TemplateFileView;

    open spec fn view(&self) -> TemplateFileView {
        TemplateFileView {
            body: self.body@,
            metadata: match self.metadata {
                Some(entries) => Some(entries_view(entries@)),
                None => None,
            },
        }
    }
}

impl View for Variable {
    type V = VariableView;

    open spec fn view(&self) -> VariableView {
        match self {
            Variable::RelativePath(s) => VariableView::RelativePath(s@),
            Variable::QuotedString(s) => VariableView::QuotedString(s@),
            Variable::Reference(s) => VariableView::Reference(s@),
            Variable::TemplateFile(t) => VariableView::TemplateFile(t@),
        }
    }
}

impl View for AstryxError {
    type V = AstryxErrorView;

    open spec fn view(&self) -> AstryxErrorView {
        match self {
            AstryxError::CannotToString => AstryxErrorView::CannotToString,
            AstryxError::ReferenceNotFound(s) => AstryxErrorView::ReferenceNotFound(s@),
            AstryxError::VariableNotFound(s) => AstryxErrorView::VariableNotFound(s@),
            AstryxError::CircularReference(s) => AstryxErrorView::CircularReference(s@),
            AstryxError::Malformed => AstryxErrorView::Malformed,
        }
    }
}

/// What a vector of named variables stands for.
pub open spec fn locals_view(locals: Seq<(String, Variable)>) -> Seq<(Seq<char>, VariableView)> {
    Seq::new(locals.len(), |k: int| (locals[k].0@, locals[k].1@))
}

impl Clone for TemplateFile {
    fn clone(&self) -> (r: TemplateFile)
        ensures
            r@ == self@,
    {
        let metadata = match &self.metadata {
            Some(entries) => {
                let mut copy: Vec<(String, String)> = Vec::new();
                let mut k: usize = 0;
                while k < entries.len()
                    invariant
                        k <= entries.len(),
                        copy@.len() == k,
                        entries_view(copy@) == entries_view(entries@).subrange(0, k as int),
                    decreases entries.len() - k,
                {
                    let entry = (entries[k].0.clone(), entries[k].1.clone());
                    proof {
                        assert(entries_view(copy@.push(entry)) =~= entries_view(entries@).subrange(
                            0,
                            k as int + 1,
                        ));
                    }
                    copy.push(entry);
                    k = k + 1;
                }
                proof {
                    assert(entries_view(copy@) =~= entries_view(entries@));
                }
                Some(copy)
            },
            None => None,
        };
        TemplateFile { body: self.body.clone(), metadata }
    }
}

impl Clone for Variable {
    fn clone(&self) -> (r: Variable)
        ensures
            r@ == self@,
    {
        match self {
            Variable::RelativePath(s) => Variable::RelativePath(s.clone()),
            Variable::QuotedString(s) => Variable::QuotedString(s.clone()),
            Variable::Reference(s) => Variable::Reference(s.clone()),
            Variable::TemplateFile(t) => Variable::TemplateFile(t.clone()),
        }
    }
}

impl VariableView {
    /// The text of a variable that is text: a quoted string or a path.
    pub open spec fn to_string(self) -> Result<Seq<char>, AstryxErrorView> {
        match self {
            VariableView::QuotedString(s) => Ok(s),
            VariableView::RelativePath(s) => Ok(s),
            _ => Err(AstryxErrorView::CannotToString),
        }
    }

    /// The variable as it is shown: its text or name as it stands, and a
    /// document by its text. A reference is not followed.
    pub open spec fn display(self) -> Seq<char> {
        match self {
            VariableView::RelativePath(s) => s,
            VariableView::QuotedString(s) => s,
            VariableView::Reference(s) => s,
            VariableView::TemplateFile(t) => t.body,
        }
    }
}

impl Variable {
    /// The text of a variable that is text.
    pub fn to_string(&self) -> (r: Result<String, AstryxError>)
        ensures
            match r {
                Ok(s) => self@.to_string() == Ok::<Seq<char>, AstryxErrorView>(s@),
                Err(e) => self@.to_string() == Err::<Seq<char>, AstryxErrorView>(e@),
            },
    {
        match self {
            Variable::QuotedString(s) => Ok(s.clone()),
            Variable::RelativePath(p) => Ok(p.clone()),
            _ => Err(AstryxError::CannotToString),
        }
    }

    /// The variable as it is shown.
    pub fn display(&self) -> (r: String)
        ensures
            r@ == self@.display(),
    {
        match self {
            Variable::RelativePath(s) => s.clone(),
            Variable::QuotedString(s) => s.clone(),
            Variable::Reference(s) => s.clone(),
            Variable::TemplateFile(t) => t.body.clone(),
        }
    }
}

/// The first segment of the dotted name `name`, and the second, where a
/// dot stands in it.
pub open spec fn dotted(name: Seq<char>) -> (Seq<char>, Option<Seq<char>>) {
    let d = run_end(name, CharClass::NotDot, 0);
    if d < name.len() {
        (name.subrange(0, d), Some(name.subrange(d + 1, run_end(name, CharClass::NotDot, d + 1))))
    } else {
        (name, None)
    }
}

/// The text of the member `member` of the document `file`: its text for
/// `body`, else the entry of that name in its front matter.
pub open spec fn member_text(file: TemplateFileView, member: Seq<char>) -> Result<
    Seq<char>,
    AstryxErrorView,
> {
    if member == "body"@ {
        Ok(file.body)
    } else {
        match file.metadata {
            Some(entries) => match first_of(entries, member) {
                Some(s) => Ok(s),
                None => Err(AstryxErrorView::ReferenceNotFound(member)),
            },
            None => Err(AstryxErrorView::ReferenceNotFound(member)),
        }
    }
}

/// The text of `variable` among the variables `locals`, following
/// references at most `fuel` times.
///
/// A path and a quoted string are their text, a document is its text. A
/// reference with a dot whose first segment names a document is the member
/// of the document that its second segment names. Any other reference is
/// the text of the variable of that name.
pub open spec fn text_of_variable(
    variable: VariableView,
    locals: Seq<(Seq<char>, VariableView)>,
    fuel: nat,
) -> Result<Seq<char>, AstryxErrorView>
    decreases fuel,
{
    match variable {
        VariableView::RelativePath(p) => Ok(p),
        VariableView::QuotedString(p) => Ok(p),
        VariableView::TemplateFile(t) => Ok(t.body),
        VariableView::Reference(p) => {
            let (base, member) = dotted(p);
            match (member, first_of(locals, base)) {
                (Some(m), Some(VariableView::TemplateFile(file))) => member_text(file, m),
                _ => match first_of(locals, p) {
                    Some(v) => if fuel == 0 {
                        Err(AstryxErrorView::CircularReference(p))
                    } else {
                        text_of_variable(v, locals, (fuel - 1) as nat)
                    },
                    None => Err(AstryxErrorView::ReferenceNotFound(p)),
                },
            }
        },
    }
}

/// Looks `name` up among `locals`.
pub fn find_variable<'a>(locals: &'a Vec<(String, Variable)>, name: &str) -> (r: Option<
    &'a Variable,
>)
    ensures
        match r {
            Some(v) => first_of(locals_view(locals@), name@) == Some(v@),
            None => first_of(locals_view(locals@), name@) is None,
        },
{
    let mut k: usize = 0;
    while k < locals.len()
        invariant
            k <= locals.len(),
            forall|j: int| 0 <= j < k ==> (#[trigger] locals_view(locals@)[j]).0 != name@,
        decreases locals.len() - k,
    {
        if same_text(locals[k].0.as_str(), name) {
            proof {
                lemma_first_of(locals_view(locals@), name@, k as int);
            }
            return Some(&locals[k].1);
        }
        k = k + 1;
    }
    proof {
        lemma_first_of(locals_view(locals@), name@, k as int);
    }
    None
}

fn find_entry<'a>(entries: &'a Vec<(String, String)>, name: &str) -> (r: Option<&'a String>)
    ensures
        match r {
            Some(v) => first_of(entries_view(entries@), name@) == Some(v@),
            None => first_of(entries_view(entries@), name@) is None,
        },
{
    let mut k: usize = 0;
    while k < entries.len()
        invariant
            k <= entries.len(),
            forall|j: int| 0 <= j < k ==> (#[trigger] entries_view(entries@)[j]).0 != name@,
        decreases entries.len() - k,
    {
        if same_text(entries[k].0.as_str(), name) {
            proof {
                lemma_first_of(entries_view(entries@), name@, k as int);
            }
            return Some(&entries[k].1);
        }
        k = k + 1;
    }
    proof {
        lemma_first_of(entries_view(entries@), name@, k as int);
    }
    None
}

/// The text of the member `member` of the document `file`.
pub fn member_of(file: &TemplateFile, member: &str) -> (r: Result<String, AstryxError>)
    ensures
        match r {
            Ok(s) => member_text(file@, member@) == Ok::<Seq<char>, AstryxErrorView>(s@),
            Err(e) => member_text(file@, member@) == Err::<Seq<char>, AstryxErrorView>(e@),
        },
{
    if same_text(member, "body") {
        return Ok(file.body.clone());
    }
    match &file.metadata {
        Some(entries) => match find_entry(entries, member) {
            Some(s) => Ok(s.clone()),
            None => Err(AstryxError::ReferenceNotFound(member.to_owned())),
        },
        None => Err(AstryxError::ReferenceNotFound(member.to_owned())),
    }
}

/// Splits a dotted name into its first segment and, where a dot stands in
/// it, its second.
pub fn split_dotted(name: &str) -> (r: (String, Option<String>))
    ensures
        (r.0@, match r.1 {
            Some(m) => Some(m@),
            None => None,
        }) == dotted(name@),
{
    let chars = to_chars(name);
    let d = scan(&chars, CharClass::NotDot, 0);
    if d < chars.len() {
        let e = scan(&chars, CharClass::NotDot, d + 1);
        (from_chars(&chars, 0, d), Some(from_chars(&chars, d + 1, e)))
    } else {
        proof {
            assert(name@.subrange(0, name@.len() as int) =~= name@);
        }
        (from_chars(&chars, 0, d), None)
    }
}

fn stringify_with(variable: &Variable, locals: &Vec<(String, Variable)>, fuel: usize) -> (r: Result<
    String,
    AstryxError,
>)
    ensures
        match r {
            Ok(s) => text_of_variable(variable@, locals_view(locals@), fuel as nat) == Ok::<
                Seq<char>,
                AstryxErrorView,
            >(s@),
            Err(e) => text_of_variable(variable@, locals_view(locals@), fuel as nat) == Err::<
                Seq<char>,
                AstryxErrorView,
            >(e@),
        },
    decreases fuel,
{
    match variable {
        Variable::RelativePath(p) => Ok(p.clone()),
        Variable::QuotedString(p) => Ok(p.clone()),
        Variable::TemplateFile(t) => Ok(t.body.clone()),
        Variable::Reference(p) => {
            let (base, member) = split_dotted(p.as_str());
            if let Some(m) = member {
                if let Some(Variable::TemplateFile(file)) = find_variable(locals, base.as_str()) {
                    return member_of(file, m.as_str());
                }
            }
            match find_variable(locals, p.as_str()) {
                Some(v) => {
                    if fuel == 0 {
                        Err(AstryxError::CircularReference(p.clone()))
                    } else {
                        stringify_with(v, locals, fuel - 1)
                    }
                },
                None => Err(AstryxError::ReferenceNotFound(p.clone())),
            }
        },
    }
}

/// The text of `variable` among the variables `locals`. A reference is
/// followed to the variable it names, and so on, but no more often than
/// there are variables: references that lead further go round in a
/// circle.
pub fn stringify_variable(variable: &Variable, locals: &Vec<(String, Variable)>) -> (r: Result<
    String,
    AstryxError,
>)
    ensures
        match r {
            Ok(s) => text_of_variable(variable@, locals_view(locals@), locals@.len()) == Ok::<
                Seq<char>,
                AstryxErrorView,
            >(s@),
            Err(e) => text_of_variable(variable@, locals_view(locals@), locals@.len()) == Err::<
                Seq<char>,
                AstryxErrorView,
            >(e@),
        },
{
    stringify_with(variable, locals, locals.len())
}

/// The texts of `variables`, each under its name, in their order. The
/// first variable that has no text ends it with its error.
pub open spec fn texts_of_variables(
    variables: Seq<(Seq<char>, VariableView)>,
    locals: Seq<(Seq<char>, VariableView)>,
    done: Seq<(Seq<char>, Seq<char>)>,
) -> Result<Seq<(Seq<char>, Seq<char>)>, AstryxErrorView>
    decreases variables.len(),
{
    if variables.len() == 0 {
        Ok(done)
    } else {
        match text_of_variable(variables[0].1, locals, locals.len()) {
            Ok(s) => texts_of_variables(
                variables.drop_first(),
                locals,
                done.push((variables[0].0, s)),
            ),
            Err(e) => Err(e),
        }
    }
}

/// Converts a series of variables to strings.
pub fn stringify_variables(
    variables: &Vec<(String, Variable)>,
    locals: &Vec<(String, Variable)>,
) -> (r: Result<Vec<(String, String)>, AstryxError>)
    ensures
        match r {
            Ok(s) => texts_of_variables(
                locals_view(variables@),
                locals_view(locals@),
                Seq::empty(),
            ) == Ok::<Seq<(Seq<char>, Seq<char>)>, AstryxErrorView>(entries_view(s@)),
            Err(e) => texts_of_variables(
                locals_view(variables@),
                locals_view(locals@),
                Seq::empty(),
            ) == Err::<Seq<(Seq<char>, Seq<char>)>, AstryxErrorView>(e@),
        },
{
    let mut stringified: Vec<(String, String)> = Vec::new();
    let ghost all = locals_view(variables@);
    let ghost goal = texts_of_variables(all, locals_view(locals@), Seq::empty());
    let mut k: usize = 0;
    proof {
        assert(all.subrange(0, all.len() as int) =~= all);
        assert(entries_view(stringified@) =~= Seq::empty());
    }
    while k < variables.len()
        invariant
            k <= variables.len(),
            all == locals_view(variables@),
            goal == texts_of_variables(all, locals_view(locals@), Seq::empty()),
            goal == texts_of_variables(
                all.subrange(k as int, all.len() as int),
                locals_view(locals@),
                entries_view(stringified@),
            ),
        decreases variables.len() - k,
    {
        let ghost tail = all.subrange(k as int, all.len() as int);
        proof {
            assert(tail[0] == (variables@[k as int].0@, variables@[k as int].1@));
            assert(tail.drop_first() =~= all.subrange(k as int + 1, all.len() as int));
        }
        let text = match stringify_variable(&variables[k].1, locals) {
            Ok(s) => s,
            Err(e) => {
                return Err(e);
            },
        };
        let entry = (variables[k].0.clone(), text);
        proof {
            assert(entries_view(stringified@.push(entry)) =~= entries_view(stringified@).push(
                (tail[0].0, text@),
            ));
        }
        stringified.push(entry);
        k = k + 1;
    }
    proof {
        assert(all.subrange(k as int, all.len() as int) =~= Seq::empty());
    }
    Ok(stringified)
}

/// What `get_required_variable` gives for the name `i`: the variable of
/// that name, or the error that it is not there.
pub open spec fn required(i: Seq<char>, attributes: Seq<(Seq<char>, VariableView)>) -> Result<
    VariableView,
    AstryxErrorView,
> {
    match first_of(attributes, i) {
        Some(v) => Ok(v),
        None => Err(AstryxErrorView::VariableNotFound(i)),
    }
}

/// The variable of the name `i` among `attributes`, which must be there.
pub fn get_required_variable(i: &str, attributes: &Vec<(String, Variable)>) -> (r: Result<
    Variable,
    AstryxError,
>)
    ensures
        match r {
            Ok(v) => required(i@, locals_view(attributes@)) == Ok::<
                VariableView,
                AstryxErrorView,
            >(v@),
            Err(e) => required(i@, locals_view(attributes@)) == Err::<
                VariableView,
                AstryxErrorView,
            >(e@),
        },
{
    match find_variable(attributes, i) {
        Some(v) => Ok(v.clone()),
        None => Err(AstryxError::VariableNotFound(i.to_owned())),
    }
}

} // verus!
