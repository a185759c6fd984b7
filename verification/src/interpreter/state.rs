//! What evaluation carries along: the names in scope, the pages written so
//! far, and what the file system holds.

use vstd::prelude::*;
use vstd::string::StringExecFns;
use crate::parser::chars::{from_chars, lemma_run_end_bounds, run_end, scan, to_chars, CharClass};
use crate::interpreter::assoc::{
    find_first,
    find_last,
    first_of,
    last_of,
    lemma_last_of,
    same_text,
};
use crate::interpreter::error::{ErrorKindView, ErrorView, InterpreterError, InterpreterErrorKind};
use crate::interpreter::models::{
    lemma_map_object_view,
    bindings_view,
    lemma_listing_object_view,
    objects_view,
    Builtin,
    Object,
    ObjectView,
};
use crate::interpreter::program::{
    append_to_last,
    pages_view,
    program_view,
    without_path,
    InstructionView,
    Page,
    PageView,
    ProgramInstruction,
};

verus! {

/// What the file system gave for a path: the contents of the file, or what
/// it said in place of them.
pub type FileResult = Result<String, String>;

/// What the file system gave for a pattern: the files that match it, each
/// with its path and its contents, in the order in which it listed them, or
/// what it said in place of them.
pub type GlobResult = Result<Vec<(String, String)>, String>;

pub struct StateView {
    /// The bindings in scope, the newest last.
    pub scope: Seq<(Seq<char>, ObjectView)>,
    /// The pages, in the order in which they were started. Output goes to
    /// the last.
    pub pages: Seq<PageView>,
    /// Whether output must stand inside a page.
    pub grouped: bool,
    /// The files that are known, by path.
    pub files: Seq<(Seq<char>, Result<Seq<char>, Seq<char>>)>,
    /// The patterns that are known, each with the paths and contents of
    /// the files that match it.
    pub globs: Seq<(Seq<char>, Result<Seq<(Seq<char>, Seq<char>)>, Seq<char>>)>,
    /// What stands before a path of the template to make the path on disk.
    pub pwd: Seq<char>,
}

/// What a vector of files stands for: their paths and contents.
pub open spec fn matches_view(items: Seq<(String, String)>) -> Seq<(Seq<char>, Seq<char>)> {
    Seq::new(items.len(), |k: int| (items[k].0@, items[k].1@))
}

/// The paths of the files `matches`.
pub open spec fn paths_of(matches: Seq<(Seq<char>, Seq<char>)>) -> Seq<Seq<char>> {
    Seq::new(matches.len(), |k: int| matches[k].0)
}

/// The contents of the files `matches`.
pub open spec fn contents_of(matches: Seq<(Seq<char>, Seq<char>)>) -> Seq<Seq<char>> {
    Seq::new(matches.len(), |k: int| matches[k].1)
}

pub open spec fn file_result_view(r: FileResult) -> Result<Seq<char>, Seq<char>> {
    match r {
        Ok(c) => Ok(c@),
        Err(m) => Err(m@),
    }
}

pub open spec fn glob_result_view(r: GlobResult) -> Result<
    Seq<(Seq<char>, Seq<char>)>,
    Seq<char>,
> {
    match r {
        Ok(c) => Ok(matches_view(c@)),
        Err(m) => Err(m@),
    }
}

pub open spec fn files_view(files: Seq<(String, FileResult)>) -> Seq<
    (Seq<char>, Result<Seq<char>, Seq<char>>),
> {
    Seq::new(files.len(), |k: int| (files[k].0@, file_result_view(files[k].1)))
}

pub open spec fn globs_view(globs: Seq<(String, GlobResult)>) -> Seq<
    (Seq<char>, Result<Seq<(Seq<char>, Seq<char>)>, Seq<char>>),
> {
    Seq::new(globs.len(), |k: int| (globs[k].0@, glob_result_view(globs[k].1)))
}

/// The strings `contents` as values.
pub open spec fn string_objects(contents: Seq<Seq<char>>) -> Seq<ObjectView> {
    Seq::new(contents.len(), |k: int| ObjectView::String(contents[k]))
}

/// The listing of the strings `contents`.
pub open spec fn array_of_strings(contents: Seq<Seq<char>>) -> ObjectView {
    ObjectView::Listing(string_objects(contents))
}

/// The member of `value` that the rest of the dotted name `s` from index
/// `d` on names, where `d` is the end of `s` or the place of a dot. Each
/// further segment is looked up in the map that the value before it is. A
/// value that is no map, or has no such entry, gives the segment that was
/// not found.
pub open spec fn member(value: ObjectView, s: Seq<char>, d: int) -> Result<ObjectView, Seq<char>>
    decreases s.len() - d,
{
    if 0 <= d < s.len() {
        let e = run_end(s, CharClass::NotDot, d + 1);
        let key = s.subrange(d + 1, e);
        proof {
            lemma_run_end_bounds(s, CharClass::NotDot, d + 1);
        }
        match value {
            ObjectView::Dict(entries) => match first_of(entries, key) {
                Some(v) => member(v, s, e),
                None => Err(key),
            },
            _ => Err(key),
        }
    } else {
        Ok(value)
    }
}

impl StateView {
    /// The value that the name `name` stands for. Its first segment, up to
    /// the first dot, is looked up in scope, the newest binding first; the
    /// segments after it name members. Where the first segment is not
    /// bound the error is `None`; where a member is missing it is the
    /// segment that was not found.
    pub open spec fn find(self, name: Seq<char>) -> Result<ObjectView, Option<Seq<char>>> {
        let d = run_end(name, CharClass::NotDot, 0);
        match self.lookup(name.subrange(0, d)) {
            Some(v) => match member(v, name, d) {
                Ok(v) => Ok(v),
                Err(key) => Err(Some(key)),
            },
            None => Err(None),
        }
    }

    /// The value that the name `name`, which may be dotted, stands for.
    pub open spec fn get(self, name: Seq<char>) -> Option<ObjectView> {
        match self.find(name) {
            Ok(v) => Some(v),
            Err(_) => None,
        }
    }

    /// The state before anything is bound, written or known.
    pub open spec fn empty() -> StateView {
        StateView {
            scope: Seq::empty(),
            pages: Seq::empty(),
            grouped: false,
            files: Seq::empty(),
            globs: Seq::empty(),
            pwd: Seq::empty(),
        }
    }

    /// What stands before the paths of a template in the directory `pwd`:
    /// `./`, the directory and `/`; nothing where no directory is given.
    pub open spec fn prefix(pwd: Option<Seq<char>>) -> Seq<char> {
        match pwd {
            Some(p) => "./"@ + p + "/"@,
            None => Seq::empty(),
        }
    }

    /// The path on disk of the path `path` of the template.
    pub open spec fn on_disk(self, path: Seq<char>) -> Seq<char> {
        self.pwd + path
    }

    /// The state with `name` bound to `value`, over any earlier binding of
    /// that name.
    pub open spec fn bind(self, name: Seq<char>, value: ObjectView) -> StateView {
        StateView { scope: self.scope.push((name, value)), ..self }
    }

    /// The value that `name` is bound to: that of its newest binding.
    pub open spec fn lookup(self, name: Seq<char>) -> Option<ObjectView> {
        last_of(self.scope, name)
    }

    /// The state with only the oldest `mark` bindings, where it has more.
    pub open spec fn cut(self, mark: int) -> StateView {
        if 0 <= mark <= self.scope.len() {
            StateView { scope: self.scope.subrange(0, mark), ..self }
        } else {
            self
        }
    }

    /// The state with `name` bound to the function `builtin`. Once the
    /// function that starts pages is bound, output must stand inside a page.
    pub open spec fn register(self, name: Seq<char>, builtin: Builtin) -> StateView {
        StateView {
            scope: self.scope.push((name, ObjectView::BuiltinFunction(builtin))),
            grouped: self.grouped || builtin == Builtin::Page,
            ..self
        }
    }

    /// The state after `instruction` is written: to the last page; where
    /// there is no page, to a new page with the empty path, unless output
    /// must stand inside a page, which is an error.
    pub open spec fn emit(self, instruction: InstructionView) -> Result<StateView, ErrorView> {
        if self.pages.len() > 0 {
            Ok(StateView { pages: append_to_last(self.pages, instruction), ..self })
        } else if self.grouped {
            Err(ErrorView::plain(ErrorKindView::OrphanElement))
        } else {
            Ok(
                StateView {
                    pages: seq![PageView { path: Seq::empty(), program: seq![instruction] }],
                    ..self
                },
            )
        }
    }

    /// The state after a page is started at `path`: an empty page is the
    /// last one, and an earlier page at that path is gone.
    pub open spec fn open_page(self, path: Seq<char>) -> StateView {
        StateView {
            pages: without_path(self.pages, path).push(
                PageView { path, program: Seq::empty() },
            ),
            ..self
        }
    }

    /// The contents of the file at `path`. Where the file system gave none,
    /// the error holds what it said; where the path is not known, the path.
    pub open spec fn file(self, path: Seq<char>) -> Result<Seq<char>, ErrorView> {
        match last_of(self.files, path) {
            Some(Ok(contents)) => Ok(contents),
            Some(Err(message)) => Err(ErrorView::plain(ErrorKindView::IOError(message))),
            None => Err(ErrorView::plain(ErrorKindView::IOError(path))),
        }
    }

    /// The files that match `pattern`, in the order in which the file
    /// system listed them. Where the file system gave none, the error holds
    /// what it said; where the pattern is not known, the pattern.
    pub open spec fn glob(self, pattern: Seq<char>) -> Result<
        Seq<(Seq<char>, Seq<char>)>,
        ErrorView,
    > {
        match last_of(self.globs, pattern) {
            Some(Ok(matches)) => Ok(matches),
            Some(Err(message)) => Err(ErrorView::plain(ErrorKindView::IOError(message))),
            None => Err(ErrorView::plain(ErrorKindView::IOError(pattern))),
        }
    }

    /// The listing of the contents of the files that match `pattern`, in
    /// the order in which the file system gave them.
    pub open spec fn glob_array(self, pattern: Seq<char>) -> Result<ObjectView, ErrorView> {
        match self.glob(pattern) {
            Ok(matches) => Ok(array_of_strings(contents_of(matches))),
            Err(e) => Err(e),
        }
    }

    /// The listing of the paths of the files that match `pattern`, in the
    /// order in which the file system gave them.
    pub open spec fn glob_paths(self, pattern: Seq<char>) -> Result<ObjectView, ErrorView> {
        match self.glob(pattern) {
            Ok(matches) => Ok(array_of_strings(paths_of(matches))),
            Err(e) => Err(e),
        }
    }
}

/// The state of an evaluation.
#[derive(Debug)]
pub struct State {
    scope: Vec<(String, Object)>,
    pages: Vec<Page>,
    grouped: bool,
    files: Vec<(String, FileResult)>,
    globs: Vec<(String, GlobResult)>,
    pwd: String,
}

impl View for State {
    type V = StateView;

    closed spec fn view(&self) -> StateView {
        StateView {
            scope: bindings_view(self.scope@),
            pages: pages_view(self.pages@),
            grouped: self.grouped,
            files: files_view(self.files@),
            globs: globs_view(self.globs@),
            pwd: self.pwd@,
        }
    }
}

impl State {
    /// The state before anything is bound, written or known.
    pub fn new() -> (r: State)
        ensures
            r@ == StateView::empty(),
    {
        let r = State {
            scope: Vec::new(),
            pages: Vec::new(),
            grouped: false,
            files: Vec::new(),
            globs: Vec::new(),
            pwd: String::new(),
        };
        proof {
            assert(r@.scope =~= Seq::empty());
            assert(r@.pages =~= Seq::empty());
            assert(r@.files =~= Seq::empty());
            assert(r@.globs =~= Seq::empty());
        }
        r
    }

    /// The state before anything is bound, written or known, for a
    /// template in the directory `pwd`.
    pub fn in_directory(pwd: Option<&str>) -> (r: State)
        ensures
            r@ == (StateView {
                pwd: StateView::prefix(
                    match pwd {
                        Some(p) => Some(p@),
                        None => None,
                    },
                ),
                ..StateView::empty()
            }),
    {
        let mut r = State::new();
        if let Some(p) = pwd {
            let mut prefix = "./".to_owned();
            prefix.append(p);
            prefix.append("/");
            r.pwd = prefix;
        }
        r
    }

    /// The path on disk of the path `path` of the template.
    pub fn get_state_relative_path(&self, path: &str) -> (r: String)
        ensures
            r@ == self@.on_disk(path@),
    {
        let mut r = self.pwd.clone();
        r.append(path);
        r
    }

    /// Binds `name` to `value`.
    pub fn bind(&mut self, name: &str, value: Object)
        ensures
            final(self)@ == old(self)@.bind(name@, value@),
    {
        let entry = (name.to_owned(), value);
        proof {
            assert(bindings_view(self.scope@.push(entry)) =~= bindings_view(self.scope@).push(
                (name@, value@),
            ));
        }
        self.scope.push(entry);
    }

    /// Binds `name` to the function `builtin`.
    pub fn register(&mut self, name: &str, builtin: Builtin)
        ensures
            final(self)@ == old(self)@.register(name@, builtin),
    {
        let entry = (name.to_owned(), Object::BuiltinFunction(builtin));
        proof {
            assert(bindings_view(self.scope@.push(entry)) =~= bindings_view(self.scope@).push(
                (name@, ObjectView::BuiltinFunction(builtin)),
            ));
        }
        self.scope.push(entry);
        if builtin == Builtin::Page {
            self.grouped = true;
        }
    }

    /// The value that the one name `name` is bound to, dots and all.
    pub fn lookup(&self, name: &str) -> (r: Option<Object>)
        ensures
            match r {
                Some(v) => self@.lookup(name@) == Some(v@),
                None => self@.lookup(name@) is None,
            },
    {
        match find_last(&self.scope, name) {
            Some(v) => Some(v.clone()),
            None => None,
        }
    }

    /// Resolves the name `name`, which may be dotted, and says what was
    /// not found where it stands for nothing.
    #[verifier::loop_isolation(false)]
    pub fn find(&self, name: &str) -> (r: Result<Object, Option<String>>)
        ensures
            match r {
                Ok(v) => self@.find(name@) == Ok::<ObjectView, Option<Seq<char>>>(v@),
                Err(Some(key)) => self@.find(name@) == Err::<ObjectView, Option<Seq<char>>>(
                    Some(key@),
                ),
                Err(None) => self@.find(name@) == Err::<ObjectView, Option<Seq<char>>>(None),
            },
    {
        let chars = to_chars(name);
        let d = scan(&chars, CharClass::NotDot, 0);
        let head = from_chars(&chars, 0, d);
        let mut current = match self.lookup(head.as_str()) {
            Some(v) => v,
            None => {
                return Err(None);
            },
        };
        let ghost first = current@;
        let mut at = d;
        while at < chars.len()
            invariant
                at <= chars.len(),
                chars@ == name@,
                member(first, chars@, d as int) == member(current@, chars@, at as int),
            decreases chars.len() - at,
        {
            let e = scan(&chars, CharClass::NotDot, at + 1);
            let key = from_chars(&chars, at + 1, e);
            let next = match &current {
                Object::Dict(entries) => {
                    proof {
                        lemma_map_object_view(*entries);
                    }
                    match find_first(entries, key.as_str()) {
                        Some(v) => Some(v.clone()),
                        None => None,
                    }
                },
                _ => None,
            };
            match next {
                Some(v) => {
                    current = v;
                },
                None => {
                    return Err(Some(key));
                },
            }
            at = e;
        }
        Ok(current)
    }

    /// The value that the name `name`, which may be dotted, stands for.
    pub fn get(&self, name: &str) -> (r: Option<Object>)
        ensures
            match r {
                Some(v) => self@.get(name@) == Some(v@),
                None => self@.get(name@) is None,
            },
    {
        match self.find(name) {
            Ok(v) => Some(v),
            Err(_) => None,
        }
    }

    /// The number of bindings in scope.
    pub fn mark(&self) -> (n: usize)
        ensures
            n == self@.scope.len(),
    {
        self.scope.len()
    }

    /// Drops all bindings but the oldest `mark`.
    pub fn cut(&mut self, mark: usize)
        ensures
            final(self)@ == old(self)@.cut(mark as int),
    {
        proof {
            if mark <= self.scope@.len() {
                assert(bindings_view(self.scope@.subrange(0, mark as int)) =~= bindings_view(
                    self.scope@,
                ).subrange(0, mark as int));
            }
        }
        self.scope.truncate(mark);
    }

    /// Writes `instruction` to the last page. Where it cannot be written,
    /// the state stays as it is.
    pub fn push_instruction(&mut self, instruction: ProgramInstruction) -> (r: Result<
        (),
        InterpreterError,
    >)
        ensures
            match r {
                Ok(_) => old(self)@.emit(instruction@) == Ok::<StateView, ErrorView>(final(self)@),
                Err(e) => old(self)@.emit(instruction@) == Err::<StateView, ErrorView>(e@)
                    && final(self)@ == old(self)@,
            },
    {
        if self.pages.len() > 0 {
            let ghost before = pages_view(self.pages@);
            let mut page = self.pages.pop().unwrap();
            proof {
                assert(pages_view(self.pages@) =~= before.drop_last());
                assert(page@ == before.last());
                assert(program_view(page.program@.push(instruction)) =~= program_view(
                    page.program@,
                ).push(instruction@));
            }
            page.program.push(instruction);
            proof {
                assert(pages_view(self.pages@.push(page)) =~= append_to_last(
                    before,
                    instruction@,
                ));
            }
            self.pages.push(page);
            Ok(())
        } else if self.grouped {
            Err(InterpreterError::plain(InterpreterErrorKind::OrphanElement))
        } else {
            let mut program: Vec<ProgramInstruction> = Vec::new();
            program.push(instruction);
            let page = Page { path: String::new(), program };
            proof {
                assert(page@.program =~= seq![instruction@]);
                assert(pages_view(self.pages@.push(page)) =~= seq![page@]);
            }
            self.pages.push(page);
            Ok(())
        }
    }

    /// Starts a page at `path`.
    pub fn open_page(&mut self, path: String)
        ensures
            final(self)@ == old(self)@.open_page(path@),
    {
        let ghost before = pages_view(self.pages@);
        let mut kept: Vec<Page> = Vec::new();
        proof {
            assert(pages_view(kept@) =~= Seq::empty());
            assert(Seq::<PageView>::empty() + without_path(before, path@) =~= without_path(
                before,
                path@,
            ));
        }
        while self.pages.len() > 0
            invariant
                without_path(before, path@) == pages_view(kept@) + without_path(
                    pages_view(self.pages@),
                    path@,
                ),
                self.grouped == old(self).grouped,
                self.scope == old(self).scope,
                self.files == old(self).files,
                self.globs == old(self).globs,
                self.pwd == old(self).pwd,
            decreases self.pages.len(),
        {
            let ghost left = pages_view(self.pages@);
            let page = self.pages.remove(0);
            proof {
                assert(pages_view(self.pages@) =~= left.drop_first());
                assert(page@ == left[0]);
            }
            if !same_text(page.path.as_str(), path.as_str()) {
                proof {
                    assert(pages_view(kept@.push(page)) =~= pages_view(kept@) + seq![page@]);
                    assert((pages_view(kept@) + seq![page@]) + without_path(
                        left.drop_first(),
                        path@,
                    ) =~= pages_view(kept@) + (seq![page@] + without_path(
                        left.drop_first(),
                        path@,
                    )));
                }
                kept.push(page);
            }
        }
        let page = Page { path, program: Vec::new() };
        proof {
            assert(pages_view(self.pages@) =~= Seq::empty());
            assert(pages_view(kept@) + Seq::<PageView>::empty() =~= pages_view(kept@));
            assert(page@.program =~= Seq::empty());
            assert(pages_view(kept@.push(page)) =~= pages_view(kept@).push(page@));
        }
        kept.push(page);
        self.pages = kept;
    }

    /// Makes the contents of the file at `path` known, or what the file
    /// system said in place of them. What is told of a path last is what counts.
    pub fn add_file(&mut self, path: &str, contents: FileResult)
        ensures
            final(self)@ == (StateView {
                files: old(self)@.files.push((path@, file_result_view(contents))),
                ..old(self)@
            }),
    {
        let entry = (path.to_owned(), contents);
        proof {
            assert(files_view(self.files@.push(entry)) =~= files_view(self.files@).push(
                (path@, file_result_view(contents)),
            ));
        }
        self.files.push(entry);
    }

    /// Makes the files that match `pattern` known, each with its path and
    /// its contents, in the order in which the file system listed them, or
    /// what it said in place of them. What is told of a pattern last is what counts.
    pub fn add_glob(&mut self, pattern: &str, contents: GlobResult)
        ensures
            final(self)@ == (StateView {
                globs: old(self)@.globs.push((pattern@, glob_result_view(contents))),
                ..old(self)@
            }),
    {
        let entry = (pattern.to_owned(), contents);
        proof {
            assert(globs_view(self.globs@.push(entry)) =~= globs_view(self.globs@).push(
                (pattern@, glob_result_view(contents)),
            ));
        }
        self.globs.push(entry);
    }

    /// The contents of the file at `path`.
    pub fn read_file(&self, path: &str) -> (r: Result<String, InterpreterError>)
        ensures
            match r {
                Ok(c) => self@.file(path@) == Ok::<Seq<char>, ErrorView>(c@),
                Err(e) => self@.file(path@) == Err::<Seq<char>, ErrorView>(e@),
            },
    {
        let mut k: usize = self.files.len();
        while k > 0
            invariant
                k <= self.files.len(),
                forall|j: int|
                    k <= j < self.files.len() ==> (#[trigger] files_view(self.files@)[j]).0 != path@,
            decreases k,
        {
            k = k - 1;
            if same_text(self.files[k].0.as_str(), path) {
                proof {
                    lemma_last_of(files_view(self.files@), path@, k as int);
                }
                return match &self.files[k].1 {
                    Ok(c) => Ok(c.clone()),
                    Err(m) => Err(InterpreterError::plain(InterpreterErrorKind::IOError(m.clone()))),
                };
            }
        }
        proof {
            lemma_last_of(files_view(self.files@), path@, -1);
        }
        Err(InterpreterError::plain(InterpreterErrorKind::IOError(path.to_owned())))
    }

    /// The files that match `pattern`.
    fn find_glob(&self, pattern: &str) -> (r: Result<&Vec<(String, String)>, InterpreterError>)
        ensures
            match r {
                Ok(m) => self@.glob(pattern@) == Ok::<Seq<(Seq<char>, Seq<char>)>, ErrorView>(
                    matches_view(m@),
                ),
                Err(e) => self@.glob(pattern@) == Err::<Seq<(Seq<char>, Seq<char>)>, ErrorView>(
                    e@,
                ),
            },
    {
        let mut k: usize = self.globs.len();
        while k > 0
            invariant
                k <= self.globs.len(),
                forall|j: int|
                    k <= j < self.globs.len() ==> (#[trigger] globs_view(self.globs@)[j]).0 != pattern@,
            decreases k,
        {
            k = k - 1;
            if same_text(self.globs[k].0.as_str(), pattern) {
                proof {
                    lemma_last_of(globs_view(self.globs@), pattern@, k as int);
                }
                return match &self.globs[k].1 {
                    Ok(m) => Ok(m),
                    Err(m) => Err(InterpreterError::plain(InterpreterErrorKind::IOError(m.clone()))),
                };
            }
        }
        proof {
            lemma_last_of(globs_view(self.globs@), pattern@, -1);
        }
        Err(InterpreterError::plain(InterpreterErrorKind::IOError(pattern.to_owned())))
    }

    /// The contents of the files that match `pattern`, as an array of
    /// strings.
    pub fn expand_glob(&self, pattern: &str) -> (r: Result<Object, InterpreterError>)
        ensures
            match r {
                Ok(v) => self@.glob_array(pattern@) == Ok::<ObjectView, ErrorView>(v@),
                Err(e) => self@.glob_array(pattern@) == Err::<ObjectView, ErrorView>(e@),
            },
    {
        match self.find_glob(pattern) {
            Ok(m) => Ok(column_to_array(m, true)),
            Err(e) => Err(e),
        }
    }

    /// The paths of the files that match `pattern`, as an array of strings.
    pub fn glob_paths(&self, pattern: &str) -> (r: Result<Object, InterpreterError>)
        ensures
            match r {
                Ok(v) => self@.glob_paths(pattern@) == Ok::<ObjectView, ErrorView>(v@),
                Err(e) => self@.glob_paths(pattern@) == Err::<ObjectView, ErrorView>(e@),
            },
    {
        match self.find_glob(pattern) {
            Ok(m) => Ok(column_to_array(m, false)),
            Err(e) => Err(e),
        }
    }

    /// The pages written so far.
    pub fn pages(&self) -> (r: &Vec<Page>)
        ensures
            pages_view(r@) == self@.pages,
    {
        &self.pages
    }

    /// The pages written, at the end of an evaluation.
    pub fn into_pages(self) -> (r: Vec<Page>)
        ensures
            pages_view(r@) == self@.pages,
    {
        self.pages
    }
}

/// The listing of the contents of `matches`, or of their paths.
pub fn column_to_array(matches: &Vec<(String, String)>, contents: bool) -> (r: Object)
    ensures
        r@ == array_of_strings(
            if contents {
                contents_of(matches_view(matches@))
            } else {
                paths_of(matches_view(matches@))
            },
        ),
{
    let mut items: Vec<Object> = Vec::new();
    let mut k: usize = 0;
    let ghost all = if contents {
        contents_of(matches_view(matches@))
    } else {
        paths_of(matches_view(matches@))
    };
    proof {
        assert(objects_view(items@) =~= string_objects(all.subrange(0, 0)));
    }
    while k < matches.len()
        invariant
            k <= matches.len(),
            all == if contents {
                contents_of(matches_view(matches@))
            } else {
                paths_of(matches_view(matches@))
            },
            items@.len() == k,
            objects_view(items@) == string_objects(all.subrange(0, k as int)),
        decreases matches.len() - k,
    {
        let item = if contents {
            Object::String(matches[k].1.clone())
        } else {
            Object::String(matches[k].0.clone())
        };
        proof {
            assert(item@ == ObjectView::String(all[k as int]));
            let next = objects_view(items@.push(item));
            let goal = string_objects(all.subrange(0, k as int + 1));
            assert forall|j: int| 0 <= j < next.len() implies next[j] == goal[j] by {
                if j < k {
                    assert(next[j] == objects_view(items@)[j]);
                    assert(string_objects(all.subrange(0, k as int))[j] == goal[j]);
                }
            }
            assert(next =~= goal);
        }
        items.push(item);
        k = k + 1;
    }
    proof {
        lemma_listing_object_view(items);
        assert(all.subrange(0, k as int) =~= all);
    }
    Object::Listing(items)
}

} // verus!
