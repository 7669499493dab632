//! The terms that laws are stated in, spelled out over the parts of documents, schemas and settings.

use vstd::prelude::*;

use crate::ir::{
    alias_metadata, ArgumentView, AssociatedDataView, ConstantValueView, DirectiveView, FragmentView,
    ProgramView, ValueView,
};
use crate::location::WithLocation;
use crate::named::{first_named, NameView};
use crate::schema::{ArgumentDefinitionView, Schema, Type};
use crate::text::{extended, joined, views};

verus! {

/// Whether one of the directives goes by a name.
pub open spec fn has_directive(directives: Seq<DirectiveView>, name: Seq<char>) -> bool {
    exists|i: int| 0 <= i < directives.len() && (#[trigger] directives[i]).name.item == name
}

/// Whether a directive is the first that goes by a name.
pub open spec fn is_first_directive(
    directives: Seq<DirectiveView>,
    name: Seq<char>,
    directive: DirectiveView,
) -> bool {
    exists|i: int|
        {
            &&& 0 <= i < directives.len()
            &&& #[trigger] directives[i] == directive
            &&& directive.name.item == name
            &&& forall|j: int| 0 <= j < i ==> (#[trigger] directives[j]).name.item != name
        }
}

/// Whether one of the arguments goes by a name.
pub open spec fn has_argument(arguments: Seq<ArgumentView>, name: Seq<char>) -> bool {
    exists|i: int| 0 <= i < arguments.len() && (#[trigger] arguments[i]).name.item == name
}

/// Whether an argument is the first that goes by a name.
pub open spec fn is_first_argument(
    arguments: Seq<ArgumentView>,
    name: Seq<char>,
    argument: ArgumentView,
) -> bool {
    exists|i: int|
        {
            &&& 0 <= i < arguments.len()
            &&& #[trigger] arguments[i] == argument
            &&& argument.name.item == name
            &&& forall|j: int| 0 <= j < i ==> (#[trigger] arguments[j]).name.item != name
        }
}

/// Whether a field of the schema declares an argument of a name.
pub open spec fn declares(arguments: Seq<ArgumentDefinitionView>, name: Seq<char>) -> bool {
    exists|i: int| 0 <= i < arguments.len() && (#[trigger] arguments[i]).name == name
}

/// Whether a declared argument is the first of a name.
pub open spec fn is_first_declared(
    arguments: Seq<ArgumentDefinitionView>,
    name: Seq<char>,
    argument: ArgumentDefinitionView,
) -> bool {
    exists|i: int|
        {
            &&& 0 <= i < arguments.len()
            &&& #[trigger] arguments[i] == argument
            &&& argument.name == name
            &&& forall|j: int| 0 <= j < i ==> (#[trigger] arguments[j]).name != name
        }
}

/// Whether a program holds a fragment of a name.
pub open spec fn has_fragment(program: ProgramView, name: Seq<char>) -> bool {
    exists|i: int|
        0 <= i < program.fragments.len() && (#[trigger] program.fragments[i]).name.item == name
}

/// Whether a fragment is the one that goes by a name: the first of that name.
pub open spec fn is_fragment(program: ProgramView, name: Seq<char>, fragment: FragmentView) -> bool {
    exists|i: int|
        {
            &&& 0 <= i < program.fragments.len()
            &&& #[trigger] program.fragments[i] == fragment
            &&& fragment.name.item == name
            &&& forall|j: int| 0 <= j < i ==> (#[trigger] program.fragments[j]).name.item != name
        }
}

/// Whether the schema has a type of a name.
pub open spec fn has_type(schema: Schema, name: Seq<char>) -> bool {
    exists|i: int| 0 <= i < schema.types@.len() && (#[trigger] schema.types@[i]).name@ == name
}

/// Whether a type is the one that the schema has by a name.
pub open spec fn is_type(schema: Schema, name: Seq<char>, type_: Type) -> bool {
    exists|i: int|
        {
            &&& 0 <= i < schema.types@.len()
            &&& (#[trigger] schema.types@[i]).name@ == name
            &&& schema.types@[i].type_ == type_
            &&& forall|j: int| 0 <= j < i ==> (#[trigger] schema.types@[j]).name@ != name
        }
}

/// Whether the schema gives a type a name.
pub open spec fn is_type_string(schema: Schema, type_: Type, name: Seq<char>) -> bool {
    match type_ {
        Type::Enum(id) => id < schema.enums@.len() && schema.enums@[id as int]@ == name,
        Type::InputObject(id) => id < schema.input_objects@.len() && schema.input_objects@[id as int]@
            == name,
        Type::Interface(id) => id < schema.interfaces@.len() && schema.interfaces@[id as int].name.item@
            == name,
        Type::Object(id) => id < schema.objects@.len() && schema.objects@[id as int].name.item@ == name,
        Type::Scalar(id) => id < schema.scalars@.len() && schema.scalars@[id as int].name.item@ == name,
        Type::Union(id) => id < schema.unions@.len() && schema.unions@[id as int].name.item@ == name,
    }
}

/// Whether an object is backed by a Relay Resolver model.
pub open spec fn is_modelled(schema: Schema, id: u32) -> bool {
    &&& id < schema.objects@.len()
    &&& exists|j: int|
        0 <= j < schema.objects@[id as int].directives@.len() && (
        #[trigger] schema.objects@[id as int].directives@[j])@ == "__RelayResolverModel"@
}

/// Whether all objects of a list are backed by Relay Resolver models.
pub open spec fn all_modelled(schema: Schema, ids: Seq<u32>) -> bool {
    forall|i: int| 0 <= i < ids.len() ==> is_modelled(schema, #[trigger] ids[i])
}

/// Whether every type that selections on a type can meet is backed by a Relay Resolver model.
pub open spec fn is_modelled_throughout(schema: Schema, type_: Type) -> bool {
    match type_ {
        Type::Object(id) => is_modelled(schema, id),
        Type::Interface(id) => {
            &&& id < schema.interfaces@.len()
            &&& all_modelled(schema, schema.interfaces@[id as int].implementing_objects@)
        },
        Type::Union(id) => {
            &&& id < schema.unions@.len()
            &&& all_modelled(schema, schema.unions@[id as int].members@)
        },
        _ => false,
    }
}

/// The value of a string literal.
pub open spec fn literal(text: Seq<char>) -> ValueView {
    ValueView::Constant(ConstantValueView::String(text))
}

/// Whether the alias that directives give an inline fragment is `alias`: that of the first directive
/// that carries one.
pub open spec fn is_alias(directives: Seq<DirectiveView>, alias: WithLocation<Seq<char>>) -> bool {
    exists|i: int|
        {
            &&& 0 <= i < directives.len()
            &&& (#[trigger] directives[i]).data matches Some(AssociatedDataView::FragmentAlias(metadata))
                && metadata.alias == alias
            &&& forall|j: int|
                0 <= j < i ==> !((#[trigger] directives[j]).data matches Some(
                    AssociatedDataView::FragmentAlias(_),
                ))
        }
}

/// Whether directives give an inline fragment an alias.
pub open spec fn has_alias(directives: Seq<DirectiveView>) -> bool {
    exists|i: int|
        0 <= i < directives.len() && ((#[trigger] directives[i]).data matches Some(
            AssociatedDataView::FragmentAlias(_),
        ))
}

/// `head`, followed by every part with `mark` in front of it.
pub open spec fn marked(head: Seq<char>, parts: Seq<Seq<char>>, mark: Seq<char>) -> Seq<char> {
    head + parts.map_values(|part: Seq<char>| mark + part).flatten()
}

/// A search by name finds the first item of the name, if there is one.
pub proof fn first_named_is_first<T: NameView>(items: Seq<T>, name: Seq<char>)
    ensures
        match first_named(items, name) {
            Some(item) => exists|i: int|
                {
                    &&& 0 <= i < items.len()
                    &&& #[trigger] items[i] == item
                    &&& item.key() == name
                    &&& forall|j: int| 0 <= j < i ==> (#[trigger] items[j]).key() != name
                },
            None => forall|i: int| 0 <= i < items.len() ==> (#[trigger] items[i]).key() != name,
        },
    decreases items.len(),
{
    if items.len() > 0 {
        if items[0].key() == name {
            assert(items[0] == first_named(items, name)->0);
        } else {
            let rest = items.drop_first();
            first_named_is_first(rest, name);
            match first_named(rest, name) {
                Some(item) => {
                    let k = choose|i: int|
                        {
                            &&& 0 <= i < rest.len()
                            &&& #[trigger] rest[i] == item
                            &&& item.key() == name
                            &&& forall|j: int| 0 <= j < i ==> (#[trigger] rest[j]).key() != name
                        };
                    assert(items[k + 1] == item);
                    assert forall|j: int| 0 <= j < k + 1 implies (#[trigger] items[j]).key() != name by {
                        if j > 0 {
                            assert(rest[j - 1] == items[j]);
                        }
                    }
                },
                None => {
                    assert forall|i: int| 0 <= i < items.len() implies (#[trigger] items[i]).key() != name by {
                        if i > 0 {
                            assert(rest[i - 1] == items[i]);
                        }
                    }
                },
            }
        }
    }
}

/// The directive that is found by name is the first of that name.
pub proof fn directive_is_found(directives: Seq<DirectiveView>, name: Seq<char>)
    ensures
        match first_named(directives, name) {
            Some(directive) => is_first_directive(directives, name, directive) && has_directive(
                directives,
                name,
            ),
            None => !has_directive(directives, name),
        },
        forall|directive: DirectiveView| #[trigger]
            is_first_directive(directives, name, directive) ==> first_named(directives, name) == Some(
                directive,
            ),
{
    first_named_is_first(directives, name);
    assert forall|directive: DirectiveView| #[trigger]
        is_first_directive(directives, name, directive) implies first_named(directives, name) == Some(
        directive,
    ) by {
        let i = choose|i: int|
            {
                &&& 0 <= i < directives.len()
                &&& #[trigger] directives[i] == directive
                &&& directive.name.item == name
                &&& forall|j: int| 0 <= j < i ==> (#[trigger] directives[j]).name.item != name
            };
        assert(directives[i].key() == name);
    }
}

/// The argument that is found by name is the first of that name.
pub proof fn argument_is_found(arguments: Seq<ArgumentView>, name: Seq<char>)
    ensures
        match first_named(arguments, name) {
            Some(argument) => is_first_argument(arguments, name, argument) && has_argument(arguments, name),
            None => !has_argument(arguments, name),
        },
        forall|argument: ArgumentView| #[trigger]
            is_first_argument(arguments, name, argument) ==> first_named(arguments, name) == Some(argument),
{
    first_named_is_first(arguments, name);
    assert forall|argument: ArgumentView| #[trigger]
        is_first_argument(arguments, name, argument) implies first_named(arguments, name) == Some(argument) by {
        let i = choose|i: int|
            {
                &&& 0 <= i < arguments.len()
                &&& #[trigger] arguments[i] == argument
                &&& argument.name.item == name
                &&& forall|j: int| 0 <= j < i ==> (#[trigger] arguments[j]).name.item != name
            };
        assert(arguments[i].key() == name);
    }
}

/// The declared argument that is found by name is the first of that name.
pub proof fn declared_is_found(arguments: Seq<ArgumentDefinitionView>, name: Seq<char>)
    ensures
        match first_named(arguments, name) {
            Some(argument) => is_first_declared(arguments, name, argument) && declares(arguments, name),
            None => !declares(arguments, name),
        },
        forall|argument: ArgumentDefinitionView| #[trigger]
            is_first_declared(arguments, name, argument) ==> first_named(arguments, name) == Some(argument),
{
    first_named_is_first(arguments, name);
    assert forall|argument: ArgumentDefinitionView| #[trigger]
        is_first_declared(arguments, name, argument) implies first_named(arguments, name) == Some(argument) by {
        let i = choose|i: int|
            {
                &&& 0 <= i < arguments.len()
                &&& #[trigger] arguments[i] == argument
                &&& argument.name == name
                &&& forall|j: int| 0 <= j < i ==> (#[trigger] arguments[j]).name != name
            };
        assert(arguments[i].key() == name);
    }
}

/// The fragment that is found by name is the first of that name.
pub proof fn fragment_is_found(program: ProgramView, name: Seq<char>)
    ensures
        match program.fragment(name) {
            Some(fragment) => is_fragment(program, name, fragment) && has_fragment(program, name),
            None => !has_fragment(program, name),
        },
        forall|fragment: FragmentView| #[trigger]
            is_fragment(program, name, fragment) ==> program.fragment(name) == Some(fragment),
{
    first_named_is_first(program.fragments, name);
    assert forall|fragment: FragmentView| #[trigger]
        is_fragment(program, name, fragment) implies program.fragment(name) == Some(fragment) by {
        let i = choose|i: int|
            {
                &&& 0 <= i < program.fragments.len()
                &&& #[trigger] program.fragments[i] == fragment
                &&& fragment.name.item == name
                &&& forall|j: int| 0 <= j < i ==> (#[trigger] program.fragments[j]).name.item != name
            };
        assert(program.fragments[i].key() == name);
    }
}

/// The type that is found by name is the first of that name.
pub proof fn type_is_found(schema: Schema, name: Seq<char>)
    ensures
        match schema.spec_get_type(name) {
            Some(type_) => is_type(schema, name, type_) && has_type(schema, name),
            None => !has_type(schema, name),
        },
        forall|type_: Type| #[trigger]
            is_type(schema, name, type_) ==> schema.spec_get_type(name) == Some(type_),
{
    let types = views(schema.types@);
    first_named_is_first(types, name);
    assert forall|j: int| 0 <= j < types.len() implies (#[trigger] schema.types@[j]).name@ == types[j].key() by {}
    if let Some(item) = first_named(types, name) {
        let i = choose|i: int|
            {
                &&& 0 <= i < types.len()
                &&& #[trigger] types[i] == item
                &&& item.key() == name
                &&& forall|j: int| 0 <= j < i ==> (#[trigger] types[j]).key() != name
            };
        assert(schema.types@[i].type_ == item.type_);
        assert forall|j: int| 0 <= j < i implies (#[trigger] schema.types@[j]).name@ != name by {
            assert(types[j].key() != name);
        }
    }
    assert forall|type_: Type| #[trigger] is_type(schema, name, type_) implies schema.spec_get_type(name)
        == Some(type_) by {
        let i = choose|i: int|
            {
                &&& 0 <= i < schema.types@.len()
                &&& (#[trigger] schema.types@[i]).name@ == name
                &&& schema.types@[i].type_ == type_
                &&& forall|j: int| 0 <= j < i ==> (#[trigger] schema.types@[j]).name@ != name
            };
        assert(types[i].key() == name);
        let k = choose|k: int|
            {
                &&& 0 <= k < types.len()
                &&& #[trigger] types[k] == first_named(types, name)->0
                &&& first_named(types, name)->0.key() == name
                &&& forall|j: int| 0 <= j < k ==> (#[trigger] types[j]).key() != name
            };
        assert(schema.types@[k].name@ == name);
        assert(k == i);
    }
}

/// The name that is found for a type is the one that the schema gives it.
pub proof fn type_string_is_found(schema: Schema, type_: Type)
    ensures
        forall|name: Seq<char>|
            schema.spec_get_type_name(type_) == Some(name) <==> #[trigger] is_type_string(schema, type_, name),
{
}

/// An object is found to have a model exactly if it carries the directive.
pub proof fn model_is_found(schema: Schema, id: u32)
    ensures
        schema.spec_has_model(id) is Some <==> id < schema.objects@.len(),
        schema.spec_has_model(id) == Some(true) <==> is_modelled(schema, id),
{
    if id < schema.objects@.len() {
        let directives = schema.objects@[id as int].directives@;
        if is_modelled(schema, id) {
            let j = choose|j: int|
                0 <= j < directives.len() && (#[trigger] directives[j])@ == "__RelayResolverModel"@;
            assert(views(directives)[j] == "__RelayResolverModel"@);
        }
        if views(directives).contains("__RelayResolverModel"@) {
            let j = choose|j: int|
                0 <= j < views(directives).len() && views(directives)[j] == "__RelayResolverModel"@;
            assert(directives[j]@ == "__RelayResolverModel"@);
        }
    }
}

/// A list of objects is said to have models throughout exactly if every object of it, at every
/// position, carries the directive; it is said not to if one of them does not, and those before it
/// do.
pub proof fn models_are_found_throughout(schema: Schema, ids: Seq<u32>)
    ensures
        schema.spec_all_have_model(ids) == Some(true) <==> all_modelled(schema, ids),
        schema.spec_all_have_model(ids) == Some(false) <==> exists|i: int|
            {
                &&& 0 <= i < ids.len()
                &&& (#[trigger] ids[i]) < schema.objects@.len()
                &&& !is_modelled(schema, ids[i])
                &&& forall|j: int| 0 <= j < i ==> is_modelled(schema, #[trigger] ids[j])
            },
        schema.spec_all_have_model(ids) is None <==> exists|i: int|
            {
                &&& 0 <= i < ids.len()
                &&& (#[trigger] ids[i]) >= schema.objects@.len()
                &&& forall|j: int| 0 <= j < i ==> is_modelled(schema, #[trigger] ids[j])
            },
{
    let i = lemma_unmodelled_position(schema, ids);
    lemma_modelled_are_passed(schema, ids, i);
    if i < ids.len() {
        model_is_found(schema, ids[i]);
        assert(ids.skip(i)[0] == ids[i]);
    } else {
        assert(ids.skip(i) =~= Seq::empty());
    }
}

/// The position of the first object of a list that is not backed by a model, or the list's length.
proof fn lemma_unmodelled_position(schema: Schema, ids: Seq<u32>) -> (position: int)
    ensures
        0 <= position <= ids.len(),
        forall|j: int| 0 <= j < position ==> is_modelled(schema, #[trigger] ids[j]),
        position < ids.len() ==> !is_modelled(schema, ids[position]),
    decreases ids.len(),
{
    if ids.len() == 0 {
        0
    } else {
        let shorter = ids.drop_last();
        let position = lemma_unmodelled_position(schema, shorter);
        assert forall|j: int| 0 <= j < position implies is_modelled(schema, #[trigger] ids[j]) by {
            assert(shorter[j] == ids[j]);
        }
        if position == shorter.len() && is_modelled(schema, ids.last()) {
            position + 1
        } else {
            position
        }
    }
}

/// Objects that are backed by models are passed over.
proof fn lemma_modelled_are_passed(schema: Schema, ids: Seq<u32>, count: int)
    requires
        0 <= count <= ids.len(),
        forall|j: int| 0 <= j < count ==> is_modelled(schema, #[trigger] ids[j]),
    ensures
        schema.spec_all_have_model(ids) == schema.spec_all_have_model(ids.skip(count)),
    decreases count,
{
    if count == 0 {
        assert(ids.skip(0) =~= ids);
    } else {
        lemma_modelled_are_passed(schema, ids, count - 1);
        model_is_found(schema, ids[count - 1]);
        assert(ids.skip(count - 1)[0] == ids[count - 1]);
        assert(ids.skip(count - 1).drop_first() =~= ids.skip(count));
    }
}

/// The alias that is found for an inline fragment is that of the first directive that carries one.
pub proof fn alias_is_found(directives: Seq<DirectiveView>)
    ensures
        match alias_metadata(directives) {
            Some(metadata) => is_alias(directives, metadata.alias) && has_alias(directives),
            None => !has_alias(directives),
        },
        forall|alias: WithLocation<Seq<char>>| #[trigger]
            is_alias(directives, alias) ==> alias_metadata(directives) is Some && alias_metadata(
                directives,
            )->0.alias == alias,
    decreases directives.len(),
{
    if directives.len() > 0 {
        let rest = directives.drop_first();
        alias_is_found(rest);
        assert forall|i: int| 0 <= i < rest.len() implies #[trigger] rest[i] == directives[i + 1] by {}
        if let Some(AssociatedDataView::FragmentAlias(metadata)) = directives[0].data {
            assert(is_alias(directives, metadata.alias));
            assert forall|alias: WithLocation<Seq<char>>| #[trigger] is_alias(directives, alias) implies alias
                == metadata.alias by {}
        } else {
            match alias_metadata(rest) {
                Some(metadata) => {
                    let k = choose|i: int|
                        {
                            &&& 0 <= i < rest.len()
                            &&& (#[trigger] rest[i]).data matches Some(
                                AssociatedDataView::FragmentAlias(found),
                            ) && found.alias == metadata.alias
                            &&& forall|j: int|
                                0 <= j < i ==> !((#[trigger] rest[j]).data matches Some(
                                    AssociatedDataView::FragmentAlias(_),
                                ))
                        };
                    assert(directives[k + 1] == rest[k]);
                    assert forall|j: int| 0 <= j < k + 1 implies !((#[trigger] directives[j]).data matches Some(
                        AssociatedDataView::FragmentAlias(_),
                    )) by {
                        if j > 0 {
                            assert(rest[j - 1] == directives[j]);
                        }
                    }
                    assert forall|alias: WithLocation<Seq<char>>| #[trigger]
                        is_alias(directives, alias) implies alias == metadata.alias by {
                        let i = choose|i: int|
                            {
                                &&& 0 <= i < directives.len()
                                &&& (#[trigger] directives[i]).data matches Some(
                                    AssociatedDataView::FragmentAlias(found),
                                ) && found.alias == alias
                                &&& forall|j: int|
                                    0 <= j < i ==> !((#[trigger] directives[j]).data matches Some(
                                        AssociatedDataView::FragmentAlias(_),
                                    ))
                            };
                        assert(i == k + 1);
                    }
                },
                None => {
                    assert forall|i: int| 0 <= i < directives.len() implies !((
                    #[trigger] directives[i]).data matches Some(AssociatedDataView::FragmentAlias(_))) by {
                        if i > 0 {
                            assert(rest[i - 1] == directives[i]);
                        }
                    }
                },
            }
        }
    }
}

/// Extending a text by parts puts each of them behind it with the mark in front.
pub proof fn extending_marks_the_parts(head: Seq<char>, parts: Seq<Seq<char>>, mark: Seq<char>)
    ensures
        extended(head, parts, mark) == marked(head, parts, mark),
    decreases parts.len(),
{
    let put = |part: Seq<char>| mark + part;
    if parts.len() == 0 {
        assert(parts.map_values(put) =~= Seq::empty());
        assert(head + parts.map_values(put).flatten() =~= head);
    } else {
        let shorter = parts.drop_last();
        extending_marks_the_parts(head, shorter, mark);
        assert(parts.map_values(put) =~= shorter.map_values(put).push(mark + parts.last()));
        shorter.map_values(put).lemma_flatten_push(mark + parts.last());
        assert(extended(head, parts, mark) =~= head + (shorter.map_values(put).flatten() + (mark
            + parts.last())));
    }
}

/// Joining texts puts the mark in front of each but the first.
pub proof fn joining_marks_the_others(parts: Seq<Seq<char>>, mark: Seq<char>)
    ensures
        parts.len() == 0 ==> joined(parts, mark).len() == 0,
        parts.len() > 0 ==> joined(parts, mark) == marked(parts[0], parts.drop_first(), mark),
    decreases parts.len(),
{
    let put = |part: Seq<char>| mark + part;
    if parts.len() == 1 {
        assert(parts.drop_first().map_values(put) =~= Seq::empty());
        assert(parts[0] + parts.drop_first().map_values(put).flatten() =~= parts[0]);
    } else if parts.len() > 1 {
        let shorter = parts.drop_last();
        joining_marks_the_others(shorter, mark);
        let others = shorter.drop_first();
        assert(parts.drop_first().map_values(put) =~= others.map_values(put).push(mark + parts.last()));
        others.map_values(put).lemma_flatten_push(mark + parts.last());
        assert(joined(parts, mark) =~= parts[0] + (others.map_values(put).flatten() + (mark
            + parts.last())));
    }
}

} // verus!
