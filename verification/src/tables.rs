//! The tables that a run keeps: the `@module` spreads of a document, the types of matched
//! selections, and the fragments to keep apart.

use fnv::{FnvBuildHasher, FnvHashMap};
use indexmap::IndexSet;
use vstd::prelude::*;

use crate::ir::{DocumentNameView, ExecutableDefinitionName};
use crate::location::WithLocation;
use crate::model::{key_taken, with_distinct, with_document, MatchMap, MatchesView, TypeMatchView};
use crate::schema::Type;
use crate::text::views;

verus! {

/// The hasher of the `fnv` crate.
#[verifier::external_type_specification]
#[verifier::external_body]
pub struct ExFnvHasher(fnv::FnvHasher);

/// The standard builder of default hashers.
#[verifier::external_type_specification]
#[verifier::external_body]
#[verifier::reject_recursive_types(H)]
pub struct ExBuildHasherDefault<H>(core::hash::BuildHasherDefault<H>);

/// The ordered set of the `indexmap` crate.
#[verifier::external_type_specification]
#[verifier::external_body]
#[verifier::reject_recursive_types(T)]
#[verifier::reject_recursive_types(S)]
pub struct ExIndexSet<T, S>(indexmap::IndexSet<T, S>);

/// What a map from paths to positions holds.
pub uninterp spec fn path_positions(map: FnvHashMap<Vec<String>, usize>) -> Map<Seq<Seq<char>>, usize>;

/// Makes a map from paths to positions.
///
/// Trusted: the `Default` of `fnv::FnvHashMap` is a map that holds nothing.
#[verifier::external_body]
fn no_path_positions() -> (map: FnvHashMap<Vec<String>, usize>)
    ensures
        path_positions(map).dom() == Set::<Seq<Seq<char>>>::empty(),
{
    FnvHashMap::default()
}

/// Finds the position of a path.
///
/// Trusted: `get` of `fnv::FnvHashMap` gives the value under the key that equals `path`, if the
/// map holds one. Lists of texts are equal when they read alike.
#[verifier::external_body]
fn path_position(map: &FnvHashMap<Vec<String>, usize>, path: &Vec<String>) -> (position: Option<usize>)
    ensures
        position is Some == path_positions(*map).contains_key(views(path@)),
        position is Some ==> position->0 == path_positions(*map)[views(path@)],
{
    map.get(path).copied()
}

/// Puts a path at a position.
///
/// Trusted: `insert` of `fnv::FnvHashMap` puts the value under the key and leaves the others.
#[verifier::external_body]
fn put_path_position(map: &mut FnvHashMap<Vec<String>, usize>, path: Vec<String>, position: usize)
    ensures
        path_positions(*final(map)) == path_positions(*old(map)).insert(views(path@), position),
{
    map.insert(path, position);
}

/// What a map from types to positions holds.
pub uninterp spec fn type_positions(map: FnvHashMap<(u8, u32), usize>) -> Map<(u8, u32), usize>;

/// Makes a map from types to positions.
///
/// Trusted: the `Default` of `fnv::FnvHashMap` is a map that holds nothing.
#[verifier::external_body]
fn no_type_positions() -> (map: FnvHashMap<(u8, u32), usize>)
    ensures
        type_positions(map).dom() == Set::<(u8, u32)>::empty(),
{
    FnvHashMap::default()
}

/// Finds the position of a type.
///
/// Trusted: `get` of `fnv::FnvHashMap` gives the value under the key, if the map holds one.
#[verifier::external_body]
fn type_position(map: &FnvHashMap<(u8, u32), usize>, code: (u8, u32)) -> (position: Option<usize>)
    ensures
        position is Some == type_positions(*map).contains_key(code),
        position is Some ==> position->0 == type_positions(*map)[code],
{
    map.get(&code).copied()
}

/// Puts a type at a position.
///
/// Trusted: `insert` of `fnv::FnvHashMap` puts the value under the key and leaves the others.
#[verifier::external_body]
fn put_type_position(map: &mut FnvHashMap<(u8, u32), usize>, code: (u8, u32), position: usize)
    ensures
        type_positions(*final(map)) == type_positions(*old(map)).insert(code, position),
{
    map.insert(code, position);
}

/// What an ordered set of types holds, in its order.
pub uninterp spec fn seen_codes(set: IndexSet<(u8, u32), FnvBuildHasher>) -> Seq<(u8, u32)>;

/// Makes an ordered set of types.
///
/// Trusted: `with_hasher` of `indexmap::IndexSet` makes a set that holds nothing.
#[verifier::external_body]
fn none_seen() -> (set: IndexSet<(u8, u32), FnvBuildHasher>)
    ensures
        seen_codes(set).len() == 0,
{
    IndexSet::with_hasher(FnvBuildHasher::default())
}

/// Adds a type to an ordered set.
///
/// Trusted: `insert` of `indexmap::IndexSet` puts an item that the set does not hold behind the
/// others, and leaves a set that holds the item as it is.
#[verifier::external_body]
fn see(set: &mut IndexSet<(u8, u32), FnvBuildHasher>, code: (u8, u32))
    ensures
        seen_codes(*final(set)) == with_distinct(seen_codes(*old(set)), code),
{
    set.insert(code);
}

/// Takes the types out of an ordered set.
///
/// Trusted: `into_iter` of `indexmap::IndexSet` gives every item once, in the set's order.
#[verifier::external_body]
fn all_seen(set: IndexSet<(u8, u32), FnvBuildHasher>) -> (codes: Vec<(u8, u32)>)
    ensures
        codes@ == seen_codes(set),
{
    set.into_iter().collect()
}

/// A type as a pair of numbers.
pub open spec fn type_code(type_: Type) -> (u8, u32) {
    match type_ {
        Type::Enum(id) => (0, id),
        Type::InputObject(id) => (1, id),
        Type::Interface(id) => (2, id),
        Type::Object(id) => (3, id),
        Type::Scalar(id) => (4, id),
        Type::Union(id) => (5, id),
    }
}

/// The type that a pair of numbers stands for.
pub open spec fn code_type(code: (u8, u32)) -> Type {
    if code.0 == 0 {
        Type::Enum(code.1)
    } else if code.0 == 1 {
        Type::InputObject(code.1)
    } else if code.0 == 2 {
        Type::Interface(code.1)
    } else if code.0 == 3 {
        Type::Object(code.1)
    } else if code.0 == 4 {
        Type::Scalar(code.1)
    } else {
        Type::Union(code.1)
    }
}

/// Turns a type into a pair of numbers.
fn encode(type_: Type) -> (code: (u8, u32))
    ensures
        code == type_code(type_),
{
    match type_ {
        Type::Enum(id) => (0, id),
        Type::InputObject(id) => (1, id),
        Type::Interface(id) => (2, id),
        Type::Object(id) => (3, id),
        Type::Scalar(id) => (4, id),
        Type::Union(id) => (5, id),
    }
}

/// Turns a pair of numbers into the type that it stands for.
fn decode(code: (u8, u32)) -> (type_: Type)
    ensures
        type_ == code_type(code),
{
    if code.0 == 0 {
        Type::Enum(code.1)
    } else if code.0 == 1 {
        Type::InputObject(code.1)
    } else if code.0 == 2 {
        Type::Interface(code.1)
    } else if code.0 == 3 {
        Type::Object(code.1)
    } else if code.0 == 4 {
        Type::Scalar(code.1)
    } else {
        Type::Union(code.1)
    }
}

/// Types, each once, in the order in which they come up.
pub struct SeenTypes {
    set: IndexSet<(u8, u32), FnvBuildHasher>,
}

impl View for SeenTypes {
    type V = Seq<Type>;

    closed spec fn view(&self) -> Seq<Type> {
        Seq::new(seen_codes(self.set).len(), |i: int| code_type(seen_codes(self.set)[i]))
    }
}

impl SeenTypes {
    /// Whether every pair of numbers in the set stands for a type.
    pub closed spec fn inv(self) -> bool {
        forall|i: int|
            0 <= i < seen_codes(self.set).len() ==> type_code(code_type(#[trigger] seen_codes(self.set)[i]))
                == seen_codes(self.set)[i]
    }

    /// No types.
    pub fn new() -> (seen: SeenTypes)
        ensures
            seen.inv(),
            seen@ == Seq::<Type>::empty(),
    {
        let seen = SeenTypes { set: none_seen() };
        assert(seen@ =~= Seq::<Type>::empty());
        seen
    }

    /// Adds a type, unless it is there.
    pub fn insert(&mut self, type_: Type)
        requires
            old(self).inv(),
        ensures
            final(self).inv(),
            final(self)@ == with_distinct(old(self)@, type_),
    {
        let ghost before = seen_codes(self.set);
        let ghost types = self@;
        let code = encode(type_);
        see(&mut self.set, code);
        proof {
            if before.contains(code) {
                let i = choose|i: int| 0 <= i < before.len() && before[i] == code;
                assert(types[i] == type_);
            } else {
                if types.contains(type_) {
                    let i = choose|i: int| 0 <= i < types.len() && types[i] == type_;
                    assert(before[i] == code);
                }
            }
            assert(self@ =~= with_distinct(types, type_));
        }
    }

    /// Takes the types out, in their order.
    pub fn into_vec(self) -> (types: Vec<Type>)
        ensures
            types@ == self@,
    {
        let ghost all = self@;
        let codes = all_seen(self.set);
        let mut types: Vec<Type> = Vec::new();
        let mut i: usize = 0;
        while i < codes.len()
            invariant
                i <= codes.len(),
                all == Seq::new(codes@.len(), |i: int| code_type(codes@[i])),
                types@ =~= all.take(i as int),
            decreases codes.len() - i,
        {
            types.push(decode(codes[i]));
            i = i + 1;
        }
        types
    }
}

/// The `@module` spread that was met first for a type at a path.
pub struct TypeMatch {
    pub fragment: WithLocation<String>,
    pub module_directive_name_argument: String,
}

impl View for TypeMatch {
    type V = TypeMatchView;

    open spec fn view(&self) -> TypeMatchView {
        TypeMatchView { fragment: self.fragment@, module_name: self.module_directive_name_argument@ }
    }
}

/// The `@module` spreads at a path, with the key that they share.
pub struct Matches {
    path: Vec<String>,
    match_directive_key_argument: String,
    positions: FnvHashMap<(u8, u32), usize>,
    types: Vec<TypeMatch>,
}

impl View for Matches {
    type V = MatchesView;

    closed spec fn view(&self) -> MatchesView {
        MatchesView {
            key: self.match_directive_key_argument@,
            types: Map::new(
                |type_: Type| type_positions(self.positions).contains_key(type_code(type_)),
                |type_: Type| self.types@[type_positions(self.positions)[type_code(type_)] as int]@,
            ),
        }
    }
}

impl Matches {
    /// Whether every type has a position among the spreads.
    closed spec fn inv(self) -> bool {
        forall|code: (u8, u32)| #[trigger]
            type_positions(self.positions).contains_key(code) ==> type_positions(self.positions)[code]
                < self.types@.len()
    }

    /// No spreads yet, at a path.
    fn new(path: Vec<String>, key: String) -> (matches: Matches)
        ensures
            matches.inv(),
            matches.path == path,
            matches@.key == key@,
            matches@.types == Map::<Type, TypeMatchView>::empty(),
    {
        let matches = Matches {
            path,
            match_directive_key_argument: key,
            positions: no_type_positions(),
            types: Vec::new(),
        };
        assert(matches@.types =~= Map::<Type, TypeMatchView>::empty());
        matches
    }

    /// The spread for a type.
    fn get(&self, type_: Type) -> (found: Option<&TypeMatch>)
        requires
            self.inv(),
        ensures
            match found {
                Some(entry) => self@.types.contains_key(type_) && self@.types[type_] == entry@,
                None => !self@.types.contains_key(type_),
            },
    {
        match type_position(&self.positions, encode(type_)) {
            Some(position) => Some(&self.types[position]),
            None => None,
        }
    }

    /// Adds the spread for a type that has none.
    fn add(&mut self, type_: Type, entry: TypeMatch)
        requires
            old(self).inv(),
            !old(self)@.types.contains_key(type_),
        ensures
            final(self).inv(),
            final(self).path == old(self).path,
            final(self)@.key == old(self)@.key,
            final(self)@.types == old(self)@.types.insert(type_, entry@),
    {
        let ghost before = self@.types;
        let position: usize = self.types.len();
        put_type_position(&mut self.positions, encode(type_), position);
        self.types.push(entry);
        proof {
            assert forall|other: Type| type_code(other) == type_code(type_) implies other == type_ by {}
            assert(self@.types =~= before.insert(type_, entry@));
        }
    }
}

/// The `@module` spreads of a document, by their paths.
pub struct MatchesForPath {
    positions: FnvHashMap<Vec<String>, usize>,
    entries: Vec<Matches>,
}

impl View for MatchesForPath {
    type V = MatchMap;

    closed spec fn view(&self) -> MatchMap {
        Map::new(
            |path: Seq<Seq<char>>| path_positions(self.positions).contains_key(path),
            |path: Seq<Seq<char>>| self.entries@[path_positions(self.positions)[path] as int]@,
        )
    }
}

impl MatchesForPath {
    /// Whether every path has a position of its own among the entries, and every entry a path.
    pub closed spec fn inv(self) -> bool {
        &&& forall|path: Seq<Seq<char>>| #[trigger]
            path_positions(self.positions).contains_key(path) ==> {
                let position = path_positions(self.positions)[path] as int;
                position < self.entries@.len() && views(self.entries@[position].path@) == path
            }
        &&& forall|i: int|
            0 <= i < self.entries@.len() ==> {
                let path = views((#[trigger] self.entries@[i]).path@);
                &&& path_positions(self.positions).contains_key(path)
                &&& path_positions(self.positions)[path] == i
                &&& self.entries@[i].inv()
            }
    }

    /// No spreads.
    pub fn new() -> (matches: MatchesForPath)
        ensures
            matches.inv(),
            matches@ == Map::<Seq<Seq<char>>, MatchesView>::empty(),
    {
        let matches = MatchesForPath { positions: no_path_positions(), entries: Vec::new() };
        assert(matches@ =~= Map::<Seq<Seq<char>>, MatchesView>::empty());
        matches
    }

    /// Whether there are spreads at a path.
    pub fn contains(&self, path: &Vec<String>) -> (yes: bool)
        requires
            self.inv(),
        ensures
            yes == self@.contains_key(views(path@)),
    {
        path_position(&self.positions, path).is_some()
    }

    /// Whether the spreads at a path have the key.
    pub fn has_key(&self, path: &Vec<String>, key: &String) -> (yes: bool)
        requires
            self.inv(),
            self@.contains_key(views(path@)),
        ensures
            yes == (self@[views(path@)].key == key@),
    {
        match path_position(&self.positions, path) {
            Some(position) => self.entries[position].match_directive_key_argument == *key,
            None => false,
        }
    }

    /// Whether spreads at any path have the key.
    pub fn any_has_key(&self, key: &String) -> (yes: bool)
        requires
            self.inv(),
        ensures
            yes == key_taken(self@, key@),
    {
        let mut i: usize = 0;
        while i < self.entries.len()
            invariant
                self.inv(),
                i <= self.entries.len(),
                forall|j: int| 0 <= j < i ==> (#[trigger] self.entries@[j])@.key != key@,
            decreases self.entries.len() - i,
        {
            if self.entries[i].match_directive_key_argument == *key {
                proof {
                    let path = views(self.entries@[i as int].path@);
                    assert(self@.contains_key(path) && self@[path].key == key@);
                }
                return true;
            }
            i = i + 1;
        }
        false
    }

    /// The spread for a type at a path.
    pub fn get(&self, path: &Vec<String>, type_: Type) -> (found: Option<&TypeMatch>)
        requires
            self.inv(),
            self@.contains_key(views(path@)),
        ensures
            match found {
                Some(entry) => {
                    &&& self@[views(path@)].types.contains_key(type_)
                    &&& self@[views(path@)].types[type_] == entry@
                },
                None => !self@[views(path@)].types.contains_key(type_),
            },
    {
        match path_position(&self.positions, path) {
            Some(position) => {
                assert(views(self.entries@[position as int].path@) == views(path@));
                self.entries[position].get(type_)
            },
            None => None,
        }
    }

    /// Adds a path without spreads.
    pub fn add_path(&mut self, path: Vec<String>, key: String)
        requires
            old(self).inv(),
            !old(self)@.contains_key(views(path@)),
        ensures
            final(self).inv(),
            final(self)@ == old(self)@.insert(
                views(path@),
                MatchesView { key: key@, types: Map::empty() },
            ),
    {
        let ghost before = *self;
        let ghost steps = views(path@);
        let position: usize = self.entries.len();
        let mut copy: Vec<String> = path.clone();
        assert(views(copy@) =~= views(path@));
        put_path_position(&mut self.positions, copy, position);
        self.entries.push(Matches::new(path, key));
        proof {
            assert forall|i: int| 0 <= i < self.entries@.len() implies {
                let path = views((#[trigger] self.entries@[i]).path@);
                &&& path_positions(self.positions).contains_key(path)
                &&& path_positions(self.positions)[path] == i
                &&& self.entries@[i].inv()
            } by {
                if i < position {
                    assert(self.entries@[i] == before.entries@[i]);
                    assert(path_positions(before.positions).contains_key(views(before.entries@[i].path@)));
                    assert(before@.contains_key(views(before.entries@[i].path@)));
                }
            }
            assert(self@ =~= before@.insert(steps, MatchesView { key: key@, types: Map::empty() }));
        }
    }

    /// Adds the spread for a type that has none at a path.
    pub fn add(&mut self, path: &Vec<String>, type_: Type, entry: TypeMatch)
        requires
            old(self).inv(),
            old(self)@.contains_key(views(path@)),
            !old(self)@[views(path@)].types.contains_key(type_),
        ensures
            final(self).inv(),
            final(self)@ == old(self)@.insert(
                views(path@),
                (MatchesView {
                    types: old(self)@[views(path@)].types.insert(type_, entry@),
                    ..old(self)@[views(path@)]
                }),
            ),
    {
        let ghost before = *self;
        match path_position(&self.positions, path) {
            Some(position) => {
                assert(views(before.entries@[position as int].path@) == views(path@));
                let slot = &mut self.entries[position];
                slot.add(type_, entry);
                proof {
                    assert forall|i: int| 0 <= i < self.entries@.len() implies {
                        let path = views((#[trigger] self.entries@[i]).path@);
                        &&& path_positions(self.positions).contains_key(path)
                        &&& path_positions(self.positions)[path] == i
                        &&& self.entries@[i].inv()
                    } by {
                        assert(views(self.entries@[i].path@) == views(before.entries@[i].path@));
                    }
                    let changed = MatchesView {
                        types: before@[views(path@)].types.insert(type_, entry@),
                        ..before@[views(path@)]
                    };
                    assert forall|other: Seq<Seq<char>>| before@.contains_key(other) implies self@[other]
                        == before@.insert(views(path@), changed)[other] by {
                        assert(path_positions(before.positions).contains_key(other));
                        if other != views(path@) {
                            assert(path_positions(before.positions)[other] != position);
                        }
                    }
                    assert(self@ =~= before@.insert(views(path@), changed));
                }
            },
            None => {},
        }
    }
}

/// A fragment to keep apart, with the documents that use it.
#[derive(Debug, PartialEq, Eq)]
pub struct NoInlineFragment {
    pub fragment: String,
    pub documents: Vec<ExecutableDefinitionName>,
}

/// Where a fragment stands in a list, or the length of the list.
pub open spec fn position_of(entries: Seq<NoInlineFragment>, fragment: Seq<char>) -> int
    decreases entries.len(),
{
    if entries.len() == 0 {
        0
    } else if entries[0].fragment@ == fragment {
        0
    } else {
        1 + position_of(entries.drop_first(), fragment)
    }
}

/// The fragments to keep apart. No fragment occurs twice.
#[derive(Debug, PartialEq, Eq)]
pub struct NoInlineFragments {
    pub entries: Vec<NoInlineFragment>,
}

impl View for NoInlineFragments {
    type V = Map<Seq<char>, Seq<DocumentNameView>>;

    open spec fn view(&self) -> Map<Seq<char>, Seq<DocumentNameView>> {
        Map::new(
            |fragment: Seq<char>| position_of(self.entries@, fragment) < self.entries@.len(),
            |fragment: Seq<char>| views(self.entries@[position_of(self.entries@, fragment)].documents@),
        )
    }
}

/// A position says where the first entry of a fragment stands.
pub(crate) proof fn lemma_position_of(entries: Seq<NoInlineFragment>, fragment: Seq<char>)
    ensures
        0 <= position_of(entries, fragment) <= entries.len(),
        position_of(entries, fragment) < entries.len()
            ==> entries[position_of(entries, fragment)].fragment@ == fragment,
        forall|i: int|
            0 <= i < position_of(entries, fragment) ==> (#[trigger] entries[i]).fragment@ != fragment,
    decreases entries.len(),
{
    if entries.len() > 0 && entries[0].fragment@ != fragment {
        lemma_position_of(entries.drop_first(), fragment);
        assert forall|i: int| 0 <= i < position_of(entries, fragment) implies (
        #[trigger] entries[i]).fragment@ != fragment by {
            if i > 0 {
                assert(entries.drop_first()[i - 1] == entries[i]);
            }
        }
    }
}

/// The first entry of a fragment stands where no entry before it is one of the fragment.
pub(crate) proof fn lemma_position_is(entries: Seq<NoInlineFragment>, fragment: Seq<char>, position: int)
    requires
        0 <= position <= entries.len(),
        position < entries.len() ==> entries[position].fragment@ == fragment,
        forall|i: int| 0 <= i < position ==> (#[trigger] entries[i]).fragment@ != fragment,
    ensures
        position_of(entries, fragment) == position,
{
    lemma_position_of(entries, fragment);
    let found = position_of(entries, fragment);
    if found < position {
        assert(entries[found].fragment@ == fragment);
    }
    if position < found {
        assert(entries[position].fragment@ != fragment);
    }
}

impl NoInlineFragments {
    /// Whether no fragment occurs twice.
    pub open spec fn inv(self) -> bool {
        forall|i: int, j: int|
            0 <= i < j < self.entries@.len() ==> (#[trigger] self.entries@[i]).fragment@ != (
            #[trigger] self.entries@[j]).fragment@
    }

    /// No fragments.
    pub fn new() -> (fragments: NoInlineFragments)
        ensures
            fragments.inv(),
            fragments@ == Map::<Seq<char>, Seq<DocumentNameView>>::empty(),
    {
        let fragments = NoInlineFragments { entries: Vec::new() };
        assert(fragments@ =~= Map::<Seq<char>, Seq<DocumentNameView>>::empty());
        fragments
    }

    /// Whether there are no fragments.
    pub fn is_empty(&self) -> (yes: bool)
        ensures
            yes == (self@ == Map::<Seq<char>, Seq<DocumentNameView>>::empty()),
    {
        let yes = self.entries.len() == 0;
        proof {
            if yes {
                assert(self@ =~= Map::<Seq<char>, Seq<DocumentNameView>>::empty());
            } else {
                assert(position_of(self.entries@, self.entries@[0].fragment@) == 0);
                assert(self@.contains_key(self.entries@[0].fragment@));
            }
        }
        yes
    }

    /// Notes that a document uses a fragment.
    pub fn add(&mut self, fragment: &String, document: ExecutableDefinitionName)
        requires
            old(self).inv(),
        ensures
            final(self).inv(),
            final(self)@ == with_document(old(self)@, fragment@, document@),
    {
        let ghost before = *self;
        let mut i: usize = 0;
        proof {
            lemma_position_of(before.entries@, fragment@);
        }
        while i < self.entries.len() && self.entries[i].fragment != *fragment
            invariant
                *self == before,
                i <= self.entries.len(),
                forall|j: int| 0 <= j < i ==> (#[trigger] self.entries@[j]).fragment@ != fragment@,
            decreases self.entries.len() - i,
        {
            i = i + 1;
        }
        if i < self.entries.len() {
            let entry = &mut self.entries[i];
            entry.documents.push(document);
        } else {
            let mut documents: Vec<ExecutableDefinitionName> = Vec::new();
            documents.push(document);
            self.entries.push(NoInlineFragment { fragment: fragment.clone(), documents });
        }
        proof {
            lemma_position_is(before.entries@, fragment@, i as int);
            assert forall|other: Seq<char>| position_of(self.entries@, other) == (if other == fragment@ {
                i as int
            } else if position_of(before.entries@, other) == before.entries@.len() {
                self.entries@.len() as int
            } else {
                position_of(before.entries@, other)
            }) by {
                lemma_position_of(before.entries@, other);
                let p = position_of(before.entries@, other);
                assert forall|j: int| 0 <= j < before.entries@.len() implies (
                #[trigger] self.entries@[j]).fragment@ == before.entries@[j].fragment@ by {}
                if other == fragment@ {
                    lemma_position_is(self.entries@, other, i as int);
                } else if p == before.entries@.len() {
                    lemma_position_is(self.entries@, other, self.entries@.len() as int);
                } else {
                    lemma_position_is(self.entries@, other, p);
                }
            }
            assert forall|j: int, k: int| 0 <= j < k < self.entries@.len() implies (
            #[trigger] self.entries@[j]).fragment@ != (#[trigger] self.entries@[k]).fragment@ by {
                if k < before.entries@.len() {
                    assert(before.entries@[j].fragment@ != before.entries@[k].fragment@);
                } else {
                    assert(before.entries@[j].fragment@ != fragment@);
                }
            }
            assert(views(self.entries@[i as int].documents@) =~= with_document(
                before@,
                fragment@,
                document@,
            )[fragment@]);
            assert forall|other: Seq<char>| before@.contains_key(other) && other != fragment@ implies self@[other]
                == before@[other] by {
                assert(position_of(self.entries@, other) == position_of(before.entries@, other));
                lemma_position_of(before.entries@, other);
            }
            assert forall|other: Seq<char>| self@.contains_key(other) == with_document(
                before@,
                fragment@,
                document@,
            ).contains_key(other) by {
                lemma_position_of(before.entries@, other);
                assert(position_of(self.entries@, other) >= 0);
            }
            assert(self@ =~= with_document(before@, fragment@, document@));
        }
    }
}

} // verus!
