//! Looking items up by their names.

use vstd::prelude::*;

use crate::text::{reads, views};

verus! {

/// The model of an item that goes by a name.
pub trait NameView: Sized {
    /// The name of the item.
    spec fn key(self) -> Seq<char>;
}

/// An item that goes by a name.
pub trait NamedItem: View + Sized where Self::V: NameView {
    /// The name of the item.
    fn name(&self) -> (name: &String)
        ensures
            name@ == self@.key(),
    ;
}

/// The first of the items that goes by `name`.
pub open spec fn first_named<T: NameView>(items: Seq<T>, name: Seq<char>) -> Option<T>
    decreases items.len(),
{
    if items.len() == 0 {
        None
    } else if items[0].key() == name {
        Some(items[0])
    } else {
        first_named(items.drop_first(), name)
    }
}

/// Finds the first of the items that goes by `name`.
pub fn named<'a, T: NamedItem>(items: &'a Vec<T>, name: &str) -> (found: Option<&'a T>) where
    T::V: NameView,

    ensures
        match found {
            Some(item) => first_named(views(items@), name@) == Some(item@),
            None => first_named(views(items@), name@) is None,
        },
{
    let mut i: usize = 0;
    assert(views(items@).skip(0) =~= views(items@));
    while i < items.len()
        invariant
            i <= items.len(),
            first_named(views(items@), name@) == first_named(views(items@).skip(i as int), name@),
        decreases items.len() - i,
    {
        proof {
            let rest = views(items@).skip(i as int);
            assert(rest[0] == items@[i as int]@);
            assert(rest.drop_first() =~= views(items@).skip(i + 1));
        }
        if reads(items[i].name(), name) {
            return Some(&items[i]);
        }
        i = i + 1;
    }
    None
}

/// An item that a search by name finds is one of the items and goes by the name.
pub proof fn lemma_first_named<T: NameView>(items: Seq<T>, name: Seq<char>)
    ensures
        match first_named(items, name) {
            Some(item) => items.contains(item) && item.key() == name,
            None => forall|i: int| 0 <= i < items.len() ==> (#[trigger] items[i]).key() != name,
        },
    decreases items.len(),
{
    if items.len() > 0 {
        if items[0].key() != name {
            lemma_first_named(items.drop_first(), name);
            match first_named(items.drop_first(), name) {
                Some(item) => {
                    let j = choose|j: int| 0 <= j < items.drop_first().len() && items.drop_first()[j] == item;
                    assert(items[j + 1] == item);
                },
                None => {
                    assert forall|i: int| 0 <= i < items.len() implies (#[trigger] items[i]).key() != name by {
                        if i > 0 {
                            assert(items.drop_first()[i - 1] == items[i]);
                        }
                    }
                },
            }
        }
    }
}

} // verus!
