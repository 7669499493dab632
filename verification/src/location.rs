//! Places in source documents.

use vstd::prelude::*;

verus! {

/// The document that a location points into, by its number; or none, for what the compiler made.
#[derive(Clone, Copy, Debug, PartialEq, Eq, Hash, Structural)]
pub enum SourceLocationKey {
    Generated,
    Document(u32),
}

/// A range of a source document.
#[derive(Clone, Copy, Debug, PartialEq, Eq, Hash, Structural)]
pub struct Location {
    pub source: SourceLocationKey,
    pub start: u32,
    pub end: u32,
}

impl Location {
    /// The location of what stands in no source document.
    pub open spec fn spec_generated() -> Location {
        Location { source: SourceLocationKey::Generated, start: 0, end: 0 }
    }

    /// The location of what stands in no source document.
    pub fn generated() -> (location: Location)
        ensures
            location == Location::spec_generated(),
    {
        Location { source: SourceLocationKey::Generated, start: 0, end: 0 }
    }
}

/// An item, and the place where it stands.
#[derive(Debug, PartialEq, Eq)]
pub struct WithLocation<T> {
    pub location: Location,
    pub item: T,
}

impl<T: View> View for WithLocation<T> {
    type V = WithLocation<T::V>;

    open spec fn view(&self) -> WithLocation<T::V> {
        WithLocation { location: self.location, item: self.item@ }
    }
}

impl<T> WithLocation<T> {
    /// Puts an item at a place.
    pub fn new(location: Location, item: T) -> (located: WithLocation<T>)
        ensures
            located == (WithLocation { location: location, item: item }),
    {
        WithLocation { location, item }
    }
}

/// Copies a located text.
pub fn copy_text(text: &WithLocation<String>) -> (copy: WithLocation<String>)
    ensures
        copy == *text,
{
    WithLocation { location: text.location, item: text.item.clone() }
}

/// Copies an optional located text.
pub fn copy_optional_text(text: &Option<WithLocation<String>>) -> (copy: Option<WithLocation<String>>)
    ensures
        copy == *text,
{
    match text {
        Some(text) => Some(copy_text(text)),
        None => None,
    }
}

} // verus!
