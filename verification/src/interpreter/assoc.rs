//! Lists of named entries, and looking a name up in them.

use vstd::prelude::*;
use crate::interpreter::models::{bindings_view, Object};

verus! {

/// What the first entry of `name` in `entries` holds.
pub open spec fn first_of<V>(entries: Seq<(Seq<char>, V)>, name: Seq<char>) -> Option<V>
    decreases entries.len(),
{
    if entries.len() == 0 {
        None
    } else if entries[0].0 == name {
        Some(entries[0].1)
    } else {
        first_of(entries.drop_first(), name)
    }
}

/// What the last entry of `name` in `entries` holds.
pub open spec fn last_of<V>(entries: Seq<(Seq<char>, V)>, name: Seq<char>) -> Option<V>
    decreases entries.len(),
{
    if entries.len() == 0 {
        None
    } else if entries.last().0 == name {
        Some(entries.last().1)
    } else {
        last_of(entries.drop_last(), name)
    }
}

/// Whether `a` and `b` hold the same text.
pub fn same_text(a: &str, b: &str) -> (r: bool)
    ensures
        r == (a@ == b@),
{
    a.to_owned() == b.to_owned()
}

/// `first_of` is what stands at the first index whose name is `name`.
pub proof fn lemma_first_of<V>(entries: Seq<(Seq<char>, V)>, name: Seq<char>, k: int)
    requires
        0 <= k <= entries.len(),
        forall|j: int| 0 <= j < k ==> (#[trigger] entries[j]).0 != name,
        k == entries.len() || entries[k].0 == name,
    ensures
        first_of(entries, name) == if k < entries.len() {
            Some(entries[k].1)
        } else {
            None
        },
    decreases k,
{
    if k > 0 {
        let rest = entries.drop_first();
        assert forall|j: int| 0 <= j < k - 1 implies (#[trigger] rest[j]).0 != name by {
            assert(rest[j] == entries[j + 1]);
        }
        lemma_first_of(rest, name, k - 1);
    }
}

/// `last_of` is what stands at the last index whose name is `name`.
pub proof fn lemma_last_of<V>(entries: Seq<(Seq<char>, V)>, name: Seq<char>, k: int)
    requires
        -1 <= k < entries.len(),
        forall|j: int| k < j < entries.len() ==> (#[trigger] entries[j]).0 != name,
        k == -1 || entries[k].0 == name,
    ensures
        last_of(entries, name) == if k >= 0 {
            Some(entries[k].1)
        } else {
            None
        },
    decreases entries.len(),
{
    if entries.len() > 0 && k < entries.len() - 1 {
        let rest = entries.drop_last();
        assert forall|j: int| k < j < rest.len() implies (#[trigger] rest[j]).0 != name by {
            assert(rest[j] == entries[j]);
        }
        lemma_last_of(rest, name, k);
    }
}

/// Looks `name` up from the front of `entries`.
pub fn find_first<'a>(entries: &'a Vec<(String, Object)>, name: &str) -> (r: Option<&'a Object>)
    ensures
        match r {
            Some(v) => first_of(bindings_view(entries@), name@) == Some(v@),
            None => first_of(bindings_view(entries@), name@) is None,
        },
{
    let mut k: usize = 0;
    while k < entries.len()
        invariant
            k <= entries.len(),
            forall|j: int| 0 <= j < k ==> (#[trigger] bindings_view(entries@)[j]).0 != name@,
        decreases entries.len() - k,
    {
        if same_text(entries[k].0.as_str(), name) {
            proof {
                lemma_first_of(bindings_view(entries@), name@, k as int);
            }
            return Some(&entries[k].1);
        }
        k = k + 1;
    }
    proof {
        lemma_first_of(bindings_view(entries@), name@, k as int);
    }
    None
}

/// Looks `name` up from the back of `entries`.
pub fn find_last<'a>(entries: &'a Vec<(String, Object)>, name: &str) -> (r: Option<&'a Object>)
    ensures
        match r {
            Some(v) => last_of(bindings_view(entries@), name@) == Some(v@),
            None => last_of(bindings_view(entries@), name@) is None,
        },
{
    let mut k: usize = entries.len();
    while k > 0
        invariant
            k <= entries.len(),
            forall|j: int|
                k <= j < entries.len() ==> (#[trigger] bindings_view(entries@)[j]).0 != name@,
        decreases k,
    {
        k = k - 1;
        if same_text(entries[k].0.as_str(), name) {
            proof {
                lemma_last_of(bindings_view(entries@), name@, k as int);
            }
            return Some(&entries[k].1);
        }
    }
    proof {
        lemma_last_of(bindings_view(entries@), name@, -1);
    }
    None
}

} // verus!
