//! Building tags.

use vstd::prelude::*;
use vstd::string::StringExecFns;
use crate::parser::chars::{is_alpha, is_digit, to_chars, CharClass};

verus! {

/// Whether `name` can name a tag: it starts with an ASCII letter, and ASCII
/// letters and digits follow.
pub open spec fn valid_tag(name: Seq<char>) -> bool {
    &&& name.len() > 0
    &&& is_alpha(name[0])
    &&& forall|k: int| 0 <= k < name.len() ==> is_alpha(#[trigger] name[k]) || is_digit(name[k])
}

/// The attributes as they stand in an opening tag: before each a space,
/// then its name, `="`, its value and `"`.
pub open spec fn attributes_text(attributes: Seq<(Seq<char>, Seq<char>)>) -> Seq<char>
    decreases attributes.len(),
{
    if attributes.len() == 0 {
        Seq::empty()
    } else {
        attributes_text(attributes.drop_last()) + " "@ + attributes.last().0 + "=\""@
            + attributes.last().1 + "\""@
    }
}

/// The opening tag of `name` with `attributes`.
pub open spec fn open_tag_text(name: Seq<char>, attributes: Seq<(Seq<char>, Seq<char>)>) -> Seq<
    char,
> {
    "<"@ + name + attributes_text(attributes) + ">"@
}

/// The closing tag of `name`.
pub open spec fn close_tag_text(name: Seq<char>) -> Seq<char> {
    "</"@ + name + ">"@
}

/// What a vector of attributes stands for.
pub open spec fn attributes_view(attributes: Seq<(String, String)>) -> Seq<
    (Seq<char>, Seq<char>),
> {
    Seq::new(attributes.len(), |k: int| (attributes[k].0@, attributes[k].1@))
}

/// The attributes with `name` set to `value`: in place where the name is
/// there, at the end where it is not.
pub open spec fn set_attribute(
    attributes: Seq<(Seq<char>, Seq<char>)>,
    name: Seq<char>,
    value: Seq<char>,
) -> Seq<(Seq<char>, Seq<char>)>
    decreases attributes.len(),
{
    if attributes.len() == 0 {
        seq![(name, value)]
    } else if attributes[0].0 == name {
        seq![(name, value)] + attributes.drop_first()
    } else {
        seq![attributes[0]] + set_attribute(attributes.drop_first(), name, value)
    }
}

/// Sets the attribute `name` to `value`.
pub fn insert_attribute(attributes: &mut Vec<(String, String)>, name: String, value: String)
    ensures
        attributes_view(final(attributes)@) == set_attribute(
            attributes_view(old(attributes)@),
            name@,
            value@,
        ),
{
    let ghost before = attributes_view(attributes@);
    let mut k: usize = 0;
    proof {
        assert(before.subrange(0, 0) =~= Seq::empty());
        assert(before.subrange(0, before.len() as int) =~= before);
    }
    while k < attributes.len()
        invariant
            k <= attributes.len(),
            attributes_view(attributes@) == before,
            before == attributes_view(old(attributes)@),
            set_attribute(before, name@, value@) == before.subrange(0, k as int) + set_attribute(
                before.subrange(k as int, before.len() as int),
                name@,
                value@,
            ),
        decreases attributes.len() - k,
    {
        let ghost tail = before.subrange(k as int, before.len() as int);
        proof {
            assert(tail[0] == before[k as int]);
            assert(tail.drop_first() =~= before.subrange(k as int + 1, before.len() as int));
        }
        if attributes[k].0 == name {
            proof {
                assert(attributes_view(attributes@.update(k as int, (name, value)))
                    =~= before.subrange(0, k as int) + (seq![(name@, value@)]
                    + tail.drop_first()));
            }
            attributes.set(k, (name, value));
            return ;
        }
        proof {
            assert(before.subrange(0, k as int) + (seq![tail[0]] + set_attribute(
                tail.drop_first(),
                name@,
                value@,
            )) =~= before.subrange(0, k as int + 1) + set_attribute(
                tail.drop_first(),
                name@,
                value@,
            ));
        }
        k = k + 1;
    }
    proof {
        assert(before.subrange(k as int, before.len() as int) =~= Seq::empty());
        assert(attributes_view(attributes@.push((name, value))) =~= before + seq![
            (name@, value@),
        ]);
    }
    attributes.push((name, value));
}

/// An element of the output: a tag name that is valid, and attributes.
#[derive(Debug)]
pub struct HTMLElement {
    ident: String,
    attributes: Vec<(String, String)>,
}

pub struct HTMLElementView {
    pub ident: Seq<char>,
    pub attributes: Seq<(Seq<char>, Seq<char>)>,
}

impl View for HTMLElement {
    type V = HTMLElementView;

    closed spec fn view(&self) -> HTMLElementView {
        HTMLElementView { ident: self.ident@, attributes: attributes_view(self.attributes@) }
    }
}

/// Whether `name` can name a tag.
pub fn is_valid_tag(name: &str) -> (b: bool)
    ensures
        b == valid_tag(name@),
{
    let chars = to_chars(name);
    if chars.len() == 0 || !CharClass::Alpha.contains(chars[0]) {
        return false;
    }
    let mut k: usize = 0;
    while k < chars.len()
        invariant
            k <= chars.len(),
            chars@ == name@,
            forall|j: int| 0 <= j < k ==> is_alpha(#[trigger] chars@[j]) || is_digit(chars@[j]),
        decreases chars.len() - k,
    {
        if !CharClass::Alphanumeric.contains(chars[k]) {
            return false;
        }
        k = k + 1;
    }
    true
}

impl HTMLElement {
    #[verifier::type_invariant]
    spec fn inv(self) -> bool {
        valid_tag(self.ident@)
    }

    /// The element `ident` with `attributes`, where `ident` can name a tag.
    pub fn new(ident: &str, attributes: Vec<(String, String)>) -> (r: Option<HTMLElement>)
        ensures
            match r {
                Some(e) => valid_tag(ident@) && e@ == (HTMLElementView {
                    ident: ident@,
                    attributes: attributes_view(attributes@),
                }),
                None => !valid_tag(ident@),
            },
    {
        if is_valid_tag(ident) {
            Some(HTMLElement { ident: ident.to_owned(), attributes })
        } else {
            None
        }
    }

    /// The opening tag of the element.
    pub fn open_tag(&self) -> (r: String)
        ensures
            r@ == open_tag_text(self@.ident, self@.attributes),
    {
        let mut r = "<".to_owned();
        r.append(self.ident.as_str());
        let ghost head = r@;
        let ghost all = attributes_view(self.attributes@);
        let mut k: usize = 0;
        proof {
            assert(all.subrange(0, 0) =~= Seq::empty());
            assert(head + attributes_text(Seq::empty()) =~= head);
        }
        while k < self.attributes.len()
            invariant
                k <= self.attributes.len(),
                all == attributes_view(self.attributes@),
                r@ == head + attributes_text(all.subrange(0, k as int)),
            decreases self.attributes.len() - k,
        {
            let ghost before = r@;
            proof {
                let next = all.subrange(0, k as int + 1);
                assert(next.drop_last() =~= all.subrange(0, k as int));
                assert(next.last() == (self.attributes@[k as int].0@, self.attributes@[k as int].1@));
            }
            r.append(" ");
            r.append(self.attributes[k].0.as_str());
            r.append("=\"");
            r.append(self.attributes[k].1.as_str());
            r.append("\"");
            proof {
                let a = all[k as int];
                assert(r@ =~= head + (attributes_text(all.subrange(0, k as int)) + " "@ + a.0
                    + "=\""@ + a.1 + "\""@));
            }
            k = k + 1;
        }
        proof {
            assert(all.subrange(0, k as int) =~= all);
        }
        r.append(">");
        r
    }

    /// The closing tag of the element.
    pub fn close_tag(&self) -> (r: String)
        ensures
            r@ == close_tag_text(self@.ident),
    {
        let mut r = "</".to_owned();
        r.append(self.ident.as_str());
        r.append(">");
        r
    }
}

} // verus!
