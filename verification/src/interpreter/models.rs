//! The values that evaluation works with.

use vstd::prelude::*;
use vstd::string::StringExecFns;
use crate::interpreter::html::HTMLElement;

verus! {

/// The functions that the host offers to templates.
#[derive(Clone, Copy, Debug, PartialEq, Eq, Structural)]
pub enum Builtin {
    /// Starts a new page at the path given as `route`.
    Page,
    /// The string it is called on, with its ASCII letters in upper case.
    Upper,
    /// The text of the file given as `path`, to be written where the call
    /// stands.
    Embed,
}

/// What a tree of output is made of.
#[derive(Debug)]
pub enum AstryxNode {
    HTMLElement(HTMLElement),
    Root,
}

/// A value at run time.
#[derive(Debug)]
pub enum Object {
    String(String),
    BuiltinFunction(Builtin),
    Array(Vec<Object>),
    /// An array that the file system gave for a pattern: one item for each
    /// file that matches, in the order of the listing.
    Listing(Vec<Object>),
    /// A map: names with their values. A map holds each name once; where
    /// one holds a name twice, the first entry is the one that is found.
    Dict(Vec<(String, Object)>),
}

pub enum ObjectView {
    String(Seq<char>),
    BuiltinFunction(Builtin),
    Array(Seq<ObjectView>),
    Listing(Seq<ObjectView>),
    Dict(Seq<(Seq<char>, ObjectView)>),
}

impl Object {
    pub open spec fn model(self) -> ObjectView
        decreases self,
    {
        match self {
            Object::String(s) => ObjectView::String(s@),
            Object::BuiltinFunction(b) => ObjectView::BuiltinFunction(b),
            Object::Array(items) => ObjectView::Array(
                Seq::new(
                    items@.len(),
                    |k: int|
                        if 0 <= k < items@.len() {
                            items@[k].model()
                        } else {
                            arbitrary()
                        },
                ),
            ),
            Object::Listing(items) => ObjectView::Listing(
                Seq::new(
                    items@.len(),
                    |k: int|
                        if 0 <= k < items@.len() {
                            items@[k].model()
                        } else {
                            arbitrary()
                        },
                ),
            ),
            Object::Dict(entries) => ObjectView::Dict(
                Seq::new(
                    entries@.len(),
                    |k: int|
                        if 0 <= k < entries@.len() {
                            (entries@[k].0@, entries@[k].1.model())
                        } else {
                            arbitrary()
                        },
                ),
            ),
        }
    }
}

impl View for Object {
    type V = ObjectView;

    open spec fn view(&self) -> ObjectView {
        self.model()
    }
}

/// What a vector of values stands for.
pub open spec fn objects_view(items: Seq<Object>) -> Seq<ObjectView> {
    Seq::new(items.len(), |k: int| items[k]@)
}

/// What a vector of named values stands for.
pub open spec fn bindings_view(entries: Seq<(String, Object)>) -> Seq<(Seq<char>, ObjectView)> {
    Seq::new(entries.len(), |k: int| (entries[k].0@, entries[k].1@))
}

/// The view of an array is made of the views of its items.
pub proof fn lemma_array_object_view(items: Vec<Object>)
    ensures
        Object::Array(items)@ == ObjectView::Array(objects_view(items@)),
{
    assert(Object::Array(items)@->Array_0 =~= objects_view(items@));
}

/// The view of a listing is made of the views of its items.
pub proof fn lemma_listing_object_view(items: Vec<Object>)
    ensures
        Object::Listing(items)@ == ObjectView::Listing(objects_view(items@)),
{
    assert(Object::Listing(items)@->Listing_0 =~= objects_view(items@));
}

/// The view of a map is made of the names and the views of the values.
pub proof fn lemma_map_object_view(entries: Vec<(String, Object)>)
    ensures
        Object::Dict(entries)@ == ObjectView::Dict(bindings_view(entries@)),
{
    assert(Object::Dict(entries)@->Dict_0 =~= bindings_view(entries@));
}

impl Builtin {
    /// The name under which the function is shown.
    pub open spec fn name(self) -> Seq<char> {
        match self {
            Builtin::Page => "page"@,
            Builtin::Upper => "upper"@,
            Builtin::Embed => "embed"@,
        }
    }

    /// The name under which the function is shown.
    pub fn label(self) -> (r: &'static str)
        ensures
            r@ == self.name(),
    {
        match self {
            Builtin::Page => "page",
            Builtin::Upper => "upper",
            Builtin::Embed => "embed",
        }
    }
}

/// The text that formatting a string for debugging gives: the string
/// between double quotes, with the characters escaped that Rust escapes.
pub uninterp spec fn debug_text(s: Seq<char>) -> Seq<char>;

/// Formats `s` with `{:?}`, the `Debug` form of `str`. The contract names
/// what the formatting gives; it depends on the characters of `s` alone.
#[verifier::external_body]
fn debug_string(s: &String) -> (r: String)
    ensures
        r@ == debug_text(s@),
{
    format!("{:?}", s)
}

impl ObjectView {
    /// The name of the kind of the value.
    pub open spec fn kind(self) -> Seq<char> {
        match self {
            ObjectView::String(_) => "String"@,
            ObjectView::BuiltinFunction(_) => "BuiltinFunction"@,
            ObjectView::Array(_) => "Array"@,
            ObjectView::Listing(_) => "Array"@,
            ObjectView::Dict(_) => "Map"@,
        }
    }

    /// The value as it is put into text: a string as it is, a function as
    /// a fixed word. An array, a listing or a map has no such form.
    pub open spec fn text(self) -> Option<Seq<char>> {
        match self {
            ObjectView::String(s) => Some(s),
            ObjectView::BuiltinFunction(_) => Some("__BuiltinFunction"@),
            ObjectView::Array(_) => None,
            ObjectView::Listing(_) => None,
            ObjectView::Dict(_) => None,
        }
    }

    /// The items of the value, where it is an array: one that is written in
    /// a template, or a listing.
    pub open spec fn items(self) -> Option<Seq<ObjectView>> {
        match self {
            ObjectView::Array(items) => Some(items),
            ObjectView::Listing(items) => Some(items),
            _ => None,
        }
    }

    /// The string that the value is, where it is one.
    pub open spec fn string(self) -> Option<Seq<char>> {
        match self {
            ObjectView::String(s) => Some(s),
            _ => None,
        }
    }

    /// The value as it is shown to a reader: a string as it is formatted
    /// for debugging, a function by its name, an array and a map by their
    /// items.
    pub open spec fn inspect(self) -> Seq<char>
        decreases self,
    {
        match self {
            ObjectView::String(s) => debug_text(s),
            ObjectView::BuiltinFunction(b) => "builtin_"@ + b.name() + "()"@,
            ObjectView::Array(items) => "["@ + Self::inspect_items(items) + "]"@,
            ObjectView::Listing(items) => "["@ + Self::inspect_items(items) + "]"@,
            ObjectView::Dict(entries) => "{"@ + Self::inspect_entries(entries) + "}"@,
        }
    }

    /// The items as they are shown, with a comma and a space between each
    /// two.
    pub open spec fn inspect_items(items: Seq<ObjectView>) -> Seq<char>
        decreases items,
    {
        if items.len() == 0 {
            Seq::empty()
        } else if items.len() == 1 {
            items[0].inspect()
        } else {
            items[0].inspect() + ", "@ + Self::inspect_items(items.drop_first())
        }
    }

    /// The entries as they are shown: each name, a colon, a space and the
    /// value, with a comma and a space between each two.
    pub open spec fn inspect_entries(entries: Seq<(Seq<char>, ObjectView)>) -> Seq<char>
        decreases entries,
    {
        if entries.len() == 0 {
            Seq::empty()
        } else if entries.len() == 1 {
            entries[0].0 + ": "@ + entries[0].1.inspect()
        } else {
            entries[0].0 + ": "@ + entries[0].1.inspect() + ", "@ + Self::inspect_entries(
                entries.drop_first(),
            )
        }
    }
}

impl Clone for Object {
    #[verifier::loop_isolation(false)]
    fn clone(&self) -> (r: Object)
        ensures
            r@ == self@,
        decreases self,
    {
        match self {
            Object::String(s) => Object::String(s.clone()),
            Object::BuiltinFunction(b) => Object::BuiltinFunction(*b),
            Object::Array(items) | Object::Listing(items) => {
                let mut copy: Vec<Object> = Vec::new();
                let mut k: usize = 0;
                while k < items.len()
                    invariant
                        k <= items.len(),
                        objects_view(copy@) == objects_view(items@).subrange(0, k as int),
                    decreases items.len() - k,
                {
                    let item = items[k].clone();
                    proof {
                        assert(objects_view(copy@.push(item)) =~= objects_view(items@).subrange(
                            0,
                            k as int + 1,
                        ));
                    }
                    copy.push(item);
                    k = k + 1;
                }
                proof {
                    assert(objects_view(copy@) =~= objects_view(items@));
                    lemma_array_object_view(copy);
                    lemma_array_object_view(*items);
                    lemma_listing_object_view(copy);
                    lemma_listing_object_view(*items);
                }
                match self {
                    Object::Listing(_) => Object::Listing(copy),
                    _ => Object::Array(copy),
                }
            },
            Object::Dict(entries) => {
                let mut copy: Vec<(String, Object)> = Vec::new();
                let mut k: usize = 0;
                while k < entries.len()
                    invariant
                        k <= entries.len(),
                        bindings_view(copy@) == bindings_view(entries@).subrange(0, k as int),
                    decreases entries.len() - k,
                {
                    let name = entries[k].0.clone();
                    let value = entries[k].1.clone();
                    proof {
                        assert(bindings_view(copy@.push((name, value))) =~= bindings_view(
                            entries@,
                        ).subrange(0, k as int + 1));
                    }
                    copy.push((name, value));
                    k = k + 1;
                }
                proof {
                    assert(bindings_view(copy@) =~= bindings_view(entries@));
                    lemma_map_object_view(copy);
                    lemma_map_object_view(*entries);
                }
                Object::Dict(copy)
            },
        }
    }
}

impl Object {
    /// The name of the kind of the value.
    pub fn kind(&self) -> (r: String)
        ensures
            r@ == self@.kind(),
    {
        match self {
            Object::String(_) => "String".to_owned(),
            Object::BuiltinFunction(_) => "BuiltinFunction".to_owned(),
            Object::Array(_) => "Array".to_owned(),
            Object::Listing(_) => "Array".to_owned(),
            Object::Dict(_) => "Map".to_owned(),
        }
    }

    /// The value as it is put into text, where it has such a form.
    pub fn to_string(&self) -> (r: Option<String>)
        ensures
            match r {
                Some(s) => self@.text() == Some(s@),
                None => self@.text() is None,
            },
    {
        match self {
            Object::String(s) => Some(s.clone()),
            Object::BuiltinFunction(_) => Some("__BuiltinFunction".to_owned()),
            Object::Array(_) => None,
            Object::Listing(_) => None,
            Object::Dict(_) => None,
        }
    }

    /// The string that the value is, where it is one.
    pub fn into_string(self) -> (r: Option<String>)
        ensures
            match r {
                Some(s) => self@.string() == Some(s@),
                None => self@.string() is None,
            },
    {
        match self {
            Object::String(s) => Some(s),
            _ => None,
        }
    }

    /// The value as it is shown to a reader.
    #[verifier::loop_isolation(false)]
    pub fn inspect(&self) -> (r: String)
        ensures
            r@ == self@.inspect(),
        decreases self,
    {
        match self {
            Object::String(s) => debug_string(s),
            Object::BuiltinFunction(b) => {
                let mut r = "builtin_".to_owned();
                r.append(b.label());
                r.append("()");
                r
            },
            Object::Array(items) | Object::Listing(items) => {
                let mut r = "[".to_owned();
                let mut k: usize = 0;
                proof {
                    lemma_array_object_view(*items);
                    lemma_listing_object_view(*items);
                    assert(objects_view(items@).subrange(0, items@.len() as int) =~= objects_view(
                        items@,
                    ));
                }
                while k < items.len()
                    invariant
                        k <= items.len(),
                        r@ + ObjectView::inspect_items(
                            objects_view(items@).subrange(k as int, items@.len() as int),
                        ) == "["@ + ObjectView::inspect_items(objects_view(items@)),
                    decreases items.len() - k,
                {
                    let ghost tail = objects_view(items@).subrange(k as int, items@.len() as int);
                    let ghost before = r@;
                    proof {
                        assert(tail[0] == items@[k as int]@);
                        assert(tail.drop_first() =~= objects_view(items@).subrange(
                            k as int + 1,
                            items@.len() as int,
                        ));
                    }
                    let shown = items[k].inspect();
                    r.append(shown.as_str());
                    if k + 1 < items.len() {
                        r.append(", ");
                        proof {
                            assert(before + shown@ + ", "@ + ObjectView::inspect_items(
                                tail.drop_first(),
                            ) =~= before + (shown@ + ", "@ + ObjectView::inspect_items(
                                tail.drop_first(),
                            )));
                        }
                    } else {
                        proof {
                            assert(tail.drop_first().len() == 0);
                            assert(before + shown@ + ObjectView::inspect_items(tail.drop_first())
                                =~= before + shown@);
                        }
                    }
                    k = k + 1;
                }
                proof {
                    let rest = objects_view(items@).subrange(k as int, items@.len() as int);
                    assert(rest.len() == 0);
                    assert(r@ + ObjectView::inspect_items(rest) =~= r@);
                }
                r.append("]");
                r
            },
            Object::Dict(entries) => {
                let mut r = "{".to_owned();
                let mut k: usize = 0;
                proof {
                    lemma_map_object_view(*entries);
                    assert(bindings_view(entries@).subrange(0, entries@.len() as int)
                        =~= bindings_view(entries@));
                }
                while k < entries.len()
                    invariant
                        k <= entries.len(),
                        r@ + ObjectView::inspect_entries(
                            bindings_view(entries@).subrange(k as int, entries@.len() as int),
                        ) == "{"@ + ObjectView::inspect_entries(bindings_view(entries@)),
                    decreases entries.len() - k,
                {
                    let ghost tail = bindings_view(entries@).subrange(
                        k as int,
                        entries@.len() as int,
                    );
                    let ghost before = r@;
                    proof {
                        assert(tail[0] == (entries@[k as int].0@, entries@[k as int].1@));
                        assert(tail.drop_first() =~= bindings_view(entries@).subrange(
                            k as int + 1,
                            entries@.len() as int,
                        ));
                    }
                    let shown = entries[k].1.inspect();
                    r.append(entries[k].0.as_str());
                    r.append(": ");
                    r.append(shown.as_str());
                    let ghost entry = tail[0].0 + ": "@ + shown@;
                    proof {
                        assert(r@ =~= before + entry);
                    }
                    if k + 1 < entries.len() {
                        r.append(", ");
                        proof {
                            assert(before + entry + ", "@ + ObjectView::inspect_entries(
                                tail.drop_first(),
                            ) =~= before + (entry + ", "@ + ObjectView::inspect_entries(
                                tail.drop_first(),
                            )));
                        }
                    } else {
                        proof {
                            assert(tail.drop_first().len() == 0);
                            assert(before + entry + ObjectView::inspect_entries(tail.drop_first())
                                =~= before + entry);
                        }
                    }
                    k = k + 1;
                }
                proof {
                    let rest = bindings_view(entries@).subrange(k as int, entries@.len() as int);
                    assert(rest.len() == 0);
                    assert(r@ + ObjectView::inspect_entries(rest) =~= r@);
                }
                r.append("}");
                r
            },
        }
    }
}

} // verus!
