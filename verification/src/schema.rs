//! The type system that documents are written against.

use vstd::prelude::*;

use crate::constants::RELAY_RESOLVER_MODEL_DIRECTIVE_NAME;
use crate::location::WithLocation;
use crate::named::{first_named, named, NameView, NamedItem};
use crate::text::{reads, views};

verus! {

/// The number of a field in the schema.
pub type FieldID = u32;

/// A type of the schema, by its kind and its number among the types of that kind.
#[derive(Clone, Copy, Debug, PartialEq, Eq, Structural)]
pub enum Type {
    Enum(u32),
    InputObject(u32),
    Interface(u32),
    Object(u32),
    Scalar(u32),
    Union(u32),
}

impl Type {
    /// Whether values of the type are values of other types.
    pub open spec fn spec_is_abstract(self) -> bool {
        self is Interface || self is Union
    }

    /// Whether values of the type are values of other types.
    pub fn is_abstract_type(self) -> (yes: bool)
        ensures
            yes == self.spec_is_abstract(),
    {
        match self {
            Type::Interface(_) => true,
            Type::Union(_) => true,
            _ => false,
        }
    }
}

/// A type as it is written at a field or an argument.
#[derive(Debug, PartialEq, Eq)]
pub enum TypeReference {
    Named(Type),
    NonNull(Box<TypeReference>),
    List(Box<TypeReference>),
}

impl TypeReference {
    /// The type that is left without lists and non-null marks.
    pub open spec fn spec_inner(self) -> Type
        decreases self,
    {
        match self {
            TypeReference::Named(type_) => type_,
            TypeReference::NonNull(of) => of.spec_inner(),
            TypeReference::List(of) => of.spec_inner(),
        }
    }

    /// The type that is left without lists and non-null marks.
    pub fn inner(&self) -> (type_: Type)
        ensures
            type_ == self.spec_inner(),
        decreases self,
    {
        match self {
            TypeReference::Named(type_) => *type_,
            TypeReference::NonNull(of) => of.inner(),
            TypeReference::List(of) => of.inner(),
        }
    }

    /// The reference without a non-null mark in front.
    pub open spec fn spec_nullable_type(self) -> TypeReference {
        match self {
            TypeReference::NonNull(of) => *of,
            _ => self,
        }
    }

    /// The reference without a non-null mark in front.
    pub fn nullable_type(&self) -> (reference: &TypeReference)
        ensures
            *reference == self.spec_nullable_type(),
    {
        match self {
            TypeReference::NonNull(of) => of,
            _ => self,
        }
    }

    /// The type of a reference that is no list.
    pub open spec fn spec_non_list_type(self) -> Option<Type>
        decreases self,
    {
        match self {
            TypeReference::Named(type_) => Some(type_),
            TypeReference::NonNull(of) => of.spec_non_list_type(),
            TypeReference::List(_) => None,
        }
    }

    /// The type of a reference that is no list.
    pub fn non_list_type(&self) -> (type_: Option<Type>)
        ensures
            type_ == self.spec_non_list_type(),
        decreases self,
    {
        match self {
            TypeReference::Named(type_) => Some(*type_),
            TypeReference::NonNull(of) => of.non_list_type(),
            TypeReference::List(_) => None,
        }
    }
}

/// An argument that a field of the schema takes.
#[derive(Debug, PartialEq, Eq)]
pub struct ArgumentDefinition {
    pub name: String,
    pub type_: TypeReference,
}

/// The model of an [`ArgumentDefinition`].
pub struct ArgumentDefinitionView {
    pub name: Seq<char>,
    pub type_: TypeReference,
}

impl View for ArgumentDefinition {
    type V = ArgumentDefinitionView;

    open spec fn view(&self) -> ArgumentDefinitionView {
        ArgumentDefinitionView { name: self.name@, type_: self.type_ }
    }
}

impl NameView for ArgumentDefinitionView {
    open spec fn key(self) -> Seq<char> {
        self.name
    }
}

impl NamedItem for ArgumentDefinition {
    fn name(&self) -> (name: &String) {
        &self.name
    }
}

/// A field of an object or an interface.
#[derive(Debug, PartialEq, Eq)]
pub struct Field {
    pub name: WithLocation<String>,
    pub arguments: Vec<ArgumentDefinition>,
    pub type_: TypeReference,
}

/// The model of a [`Field`].
pub struct FieldView {
    pub name: WithLocation<Seq<char>>,
    pub arguments: Seq<ArgumentDefinitionView>,
    pub type_: TypeReference,
}

impl View for Field {
    type V = FieldView;

    open spec fn view(&self) -> FieldView {
        FieldView { name: self.name@, arguments: views(self.arguments@), type_: self.type_ }
    }
}

/// A scalar type.
#[derive(Debug, PartialEq, Eq)]
pub struct Scalar {
    pub name: WithLocation<String>,
    /// Whether the client defines the type and the server does not know it.
    pub is_extension: bool,
}

/// An object type.
#[derive(Debug, PartialEq, Eq)]
pub struct Object {
    pub name: WithLocation<String>,
    pub fields: Vec<FieldID>,
    /// The names of the directives on the type.
    pub directives: Vec<String>,
}

/// An interface type, with the numbers of the objects that implement it.
#[derive(Debug, PartialEq, Eq)]
pub struct Interface {
    pub name: WithLocation<String>,
    pub implementing_objects: Vec<u32>,
}

/// A union type, with the numbers of the objects that belong to it.
#[derive(Debug, PartialEq, Eq)]
pub struct Union {
    pub name: WithLocation<String>,
    pub members: Vec<u32>,
}

/// A type, and the name that it is found by.
#[derive(Debug, PartialEq, Eq)]
pub struct NamedType {
    pub name: String,
    pub type_: Type,
}

/// The model of a [`NamedType`].
pub struct NamedTypeView {
    pub name: Seq<char>,
    pub type_: Type,
}

impl View for NamedType {
    type V = NamedTypeView;

    open spec fn view(&self) -> NamedTypeView {
        NamedTypeView { name: self.name@, type_: self.type_ }
    }
}

impl NameView for NamedTypeView {
    open spec fn key(self) -> Seq<char> {
        self.name
    }
}

impl NamedItem for NamedType {
    fn name(&self) -> (name: &String) {
        &self.name
    }
}

/// A schema. Types and fields are found by their numbers.
#[derive(Debug, PartialEq, Eq)]
pub struct Schema {
    pub types: Vec<NamedType>,
    pub fields: Vec<Field>,
    pub scalars: Vec<Scalar>,
    pub objects: Vec<Object>,
    pub interfaces: Vec<Interface>,
    pub unions: Vec<Union>,
    /// The names of the enum types.
    pub enums: Vec<String>,
    /// The names of the input object types.
    pub input_objects: Vec<String>,
    /// The built-in `String` type.
    pub string_type: Type,
    /// The `__typename` field, which every type has.
    pub typename_field: FieldID,
}

impl Schema {
    /// The type that goes by `name`.
    pub open spec fn spec_get_type(self, name: Seq<char>) -> Option<Type> {
        match first_named(views(self.types@), name) {
            Some(found) => Some(found.type_),
            None => None,
        }
    }

    /// Finds the type that goes by `name`.
    pub fn get_type(&self, name: &str) -> (type_: Option<Type>)
        ensures
            type_ == self.spec_get_type(name@),
    {
        match named(&self.types, name) {
            Some(found) => Some(found.type_),
            None => None,
        }
    }

    /// The field with the number `id`.
    pub open spec fn spec_field(self, id: FieldID) -> Option<FieldView> {
        if id < self.fields@.len() {
            Some(self.fields@[id as int]@)
        } else {
            None
        }
    }

    /// Finds the field with the number `id`.
    pub fn field(&self, id: FieldID) -> (field: Option<&Field>)
        ensures
            match field {
                Some(field) => self.spec_field(id) == Some(field@),
                None => self.spec_field(id) is None,
            },
    {
        if (id as usize) < self.fields.len() {
            Some(&self.fields[id as usize])
        } else {
            None
        }
    }

    /// Whether the object with the number `id` carries the directive of Relay Resolver models.
    pub open spec fn spec_has_model(self, id: u32) -> Option<bool> {
        if id < self.objects@.len() {
            Some(views(self.objects@[id as int].directives@).contains(RELAY_RESOLVER_MODEL_DIRECTIVE_NAME@))
        } else {
            None
        }
    }

    /// Whether the object with the number `id` carries the directive of Relay Resolver models.
    pub fn has_model(&self, id: u32) -> (yes: Option<bool>)
        ensures
            yes == self.spec_has_model(id),
    {
        if (id as usize) >= self.objects.len() {
            return None;
        }
        let directives = &self.objects[id as usize].directives;
        let mut i: usize = 0;
        while i < directives.len()
            invariant
                i <= directives.len(),
                forall|j: int|
                    0 <= j < i ==> views(directives@)[j] != RELAY_RESOLVER_MODEL_DIRECTIVE_NAME@,
                id < self.objects@.len(),
                directives == self.objects@[id as int].directives,
            decreases directives.len() - i,
        {
            if reads(&directives[i], RELAY_RESOLVER_MODEL_DIRECTIVE_NAME) {
                assert(views(directives@)[i as int] == RELAY_RESOLVER_MODEL_DIRECTIVE_NAME@);
                return Some(true);
            }
            i = i + 1;
        }
        Some(false)
    }

    /// Whether all of the objects carry the directive of Relay Resolver models. The objects are
    /// looked at in their order, up to the first that does not carry it.
    pub open spec fn spec_all_have_model(self, ids: Seq<u32>) -> Option<bool>
        decreases ids.len(),
    {
        if ids.len() == 0 {
            Some(true)
        } else {
            match self.spec_has_model(ids[0]) {
                None => None,
                Some(false) => Some(false),
                Some(true) => self.spec_all_have_model(ids.drop_first()),
            }
        }
    }

    /// Whether all of the objects carry the directive of Relay Resolver models.
    pub fn all_have_model(&self, ids: &Vec<u32>) -> (yes: Option<bool>)
        ensures
            yes == self.spec_all_have_model(ids@),
    {
        let mut i: usize = 0;
        assert(ids@.skip(0) =~= ids@);
        while i < ids.len()
            invariant
                i <= ids.len(),
                self.spec_all_have_model(ids@) == self.spec_all_have_model(ids@.skip(i as int)),
            decreases ids.len() - i,
        {
            assert(ids@.skip(i as int).drop_first() =~= ids@.skip(i + 1));
            match self.has_model(ids[i]) {
                None => {
                    return None;
                },
                Some(yes) => {
                    if !yes {
                        return Some(false);
                    }
                },
            }
            i = i + 1;
        }
        Some(true)
    }

    /// The first of the fields that goes by `name`. The fields are looked at in their order, up
    /// to the one that is found.
    pub open spec fn spec_field_named(self, ids: Seq<FieldID>, name: Seq<char>) -> Option<Option<FieldID>>
        decreases ids.len(),
    {
        if ids.len() == 0 {
            Some(None)
        } else {
            match self.spec_field(ids[0]) {
                None => None,
                Some(field) => if field.name.item == name {
                    Some(Some(ids[0]))
                } else {
                    self.spec_field_named(ids.drop_first(), name)
                },
            }
        }
    }

    /// Finds the first of the fields that goes by `name`.
    pub fn field_named(&self, ids: &Vec<FieldID>, name: &str) -> (found: Option<Option<FieldID>>)
        ensures
            found == self.spec_field_named(ids@, name@),
            found matches Some(Some(id)) ==> self.spec_field(id) is Some,
    {
        let mut i: usize = 0;
        assert(ids@.skip(0) =~= ids@);
        while i < ids.len()
            invariant
                i <= ids.len(),
                self.spec_field_named(ids@, name@) == self.spec_field_named(ids@.skip(i as int), name@),
            decreases ids.len() - i,
        {
            assert(ids@.skip(i as int).drop_first() =~= ids@.skip(i + 1));
            match self.field(ids[i]) {
                None => {
                    return None;
                },
                Some(field) => {
                    if reads(&field.name.item, name) {
                        return Some(Some(ids[i]));
                    }
                },
            }
            i = i + 1;
        }
        Some(None)
    }

    /// The name of a type.
    pub open spec fn spec_get_type_name(self, type_: Type) -> Option<Seq<char>> {
        match type_ {
            Type::Enum(id) => if id < self.enums@.len() {
                Some(self.enums@[id as int]@)
            } else {
                None
            },
            Type::InputObject(id) => if id < self.input_objects@.len() {
                Some(self.input_objects@[id as int]@)
            } else {
                None
            },
            Type::Interface(id) => if id < self.interfaces@.len() {
                Some(self.interfaces@[id as int].name.item@)
            } else {
                None
            },
            Type::Object(id) => if id < self.objects@.len() {
                Some(self.objects@[id as int].name.item@)
            } else {
                None
            },
            Type::Scalar(id) => if id < self.scalars@.len() {
                Some(self.scalars@[id as int].name.item@)
            } else {
                None
            },
            Type::Union(id) => if id < self.unions@.len() {
                Some(self.unions@[id as int].name.item@)
            } else {
                None
            },
        }
    }

    /// The name of a type.
    pub fn get_type_name(&self, type_: Type) -> (name: Option<&String>)
        ensures
            match name {
                Some(name) => self.spec_get_type_name(type_) == Some(name@),
                None => self.spec_get_type_name(type_) is None,
            },
    {
        match type_ {
            Type::Enum(id) => if (id as usize) < self.enums.len() {
                Some(&self.enums[id as usize])
            } else {
                None
            },
            Type::InputObject(id) => if (id as usize) < self.input_objects.len() {
                Some(&self.input_objects[id as usize])
            } else {
                None
            },
            Type::Interface(id) => if (id as usize) < self.interfaces.len() {
                Some(&self.interfaces[id as usize].name.item)
            } else {
                None
            },
            Type::Object(id) => if (id as usize) < self.objects.len() {
                Some(&self.objects[id as usize].name.item)
            } else {
                None
            },
            Type::Scalar(id) => if (id as usize) < self.scalars.len() {
                Some(&self.scalars[id as usize].name.item)
            } else {
                None
            },
            Type::Union(id) => if (id as usize) < self.unions.len() {
                Some(&self.unions[id as usize].name.item)
            } else {
                None
            },
        }
    }

    /// Whether a type is the built-in `String` type.
    pub open spec fn spec_is_string(self, type_: Type) -> bool {
        type_ == self.string_type
    }

    /// Whether a type is the built-in `String` type.
    pub fn is_string(&self, type_: Type) -> (yes: bool)
        ensures
            yes == self.spec_is_string(type_),
    {
        type_ == self.string_type
    }
}

} // verus!
