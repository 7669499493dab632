//! Text and lists of viewed items.

use vstd::prelude::*;

verus! {

/// The views of the items of a list, in their order.
pub open spec fn views<T: View>(items: Seq<T>) -> Seq<T::V> {
    Seq::new(items.len(), |i: int| items[i]@)
}

/// The view of an optional item.
pub open spec fn opt_view<T: View>(item: Option<T>) -> Option<T::V> {
    match item {
        Some(item) => Some(item@),
        None => None,
    }
}

/// The parts, one after the other, with `separator` between each two neighbours.
pub open spec fn joined(parts: Seq<Seq<char>>, separator: Seq<char>) -> Seq<char>
    decreases parts.len(),
{
    if parts.len() == 0 {
        Seq::empty()
    } else if parts.len() == 1 {
        parts[0]
    } else {
        joined(parts.drop_last(), separator) + separator + parts.last()
    }
}

/// `head`, followed by every part with `separator` in front of it.
pub open spec fn extended(head: Seq<char>, parts: Seq<Seq<char>>, separator: Seq<char>) -> Seq<char>
    decreases parts.len(),
{
    if parts.len() == 0 {
        head
    } else {
        extended(head, parts.drop_last(), separator) + separator + parts.last()
    }
}

/// Whether an owned text reads like a borrowed one.
pub fn reads(text: &String, other: &str) -> (same: bool)
    ensures
        same == (text@ == other@),
{
    *text == other.to_owned()
}

/// Whether `text` begins with `prefix`.
pub fn begins_with(text: &String, prefix: &String) -> (yes: bool)
    ensures
        yes == prefix@.is_prefix_of(text@),
{
    let count: usize = prefix.as_str().unicode_len();
    if count > text.as_str().unicode_len() {
        false
    } else {
        let head = text.as_str().substring_char(0, count).to_owned();
        head == *prefix
    }
}

/// Puts two texts one after the other.
pub fn glued(left: &str, right: &str) -> (text: String)
    ensures
        text@ == left@ + right@,
{
    left.to_owned().concat(right)
}

/// Joins texts with a separator between each two neighbours.
pub fn join(parts: &Vec<String>, separator: &str) -> (text: String)
    ensures
        text@ == joined(views(parts@), separator@),
{
    let mut text = String::new();
    let mut i: usize = 0;
    while i < parts.len()
        invariant
            i <= parts.len(),
            text@ == joined(views(parts@).take(i as int), separator@),
        decreases parts.len() - i,
    {
        if i > 0 {
            text.append(separator);
        }
        text.append(parts[i].as_str());
        proof {
            let longer = views(parts@).take(i + 1);
            assert(longer.drop_last() =~= views(parts@).take(i as int));
            assert(longer.last() == parts@[i as int]@);
            assert(i == 0 ==> text@ =~= longer[0]);
        }
        i = i + 1;
    }
    assert(views(parts@).take(i as int) =~= views(parts@));
    text
}

/// Appends every part to `head`, each with the separator in front of it.
pub fn extend(head: &str, parts: &Vec<String>, separator: &str) -> (text: String)
    ensures
        text@ == extended(head@, views(parts@), separator@),
{
    let mut text = head.to_owned();
    let mut i: usize = 0;
    while i < parts.len()
        invariant
            i <= parts.len(),
            text@ == extended(head@, views(parts@).take(i as int), separator@),
        decreases parts.len() - i,
    {
        text.append(separator);
        text.append(parts[i].as_str());
        proof {
            let longer = views(parts@).take(i + 1);
            assert(longer.drop_last() =~= views(parts@).take(i as int));
            assert(longer.last() == parts@[i as int]@);
        }
        i = i + 1;
    }
    assert(views(parts@).take(i as int) =~= views(parts@));
    text
}

} // verus!
