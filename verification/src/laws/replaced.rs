//! What takes the place of a `@module` spread.

use vstd::prelude::*;

use crate::config::{FeatureFlag, Surface};
use crate::ir::{
    ArgumentView, AssociatedDataView, DirectiveView, DocumentNameView, FragmentSpreadView,
    FragmentView, InlineFragmentView, SelectionView,
};
use crate::laws::terms::{
    argument_is_found, declared_is_found, declares, directive_is_found, extending_marks_the_parts,
    fragment_is_found, is_first_argument, is_first_directive, is_fragment, is_modelled,
    is_modelled_throughout, is_type_string, joining_marks_the_others, literal, marked,
    model_is_found, models_are_found_throughout, type_string_is_found,
};
use crate::location::{Location, SourceLocationKey, WithLocation};
use crate::model::{js_fields, module_request, path_items, visit_spread, Env, Progress, Scope};
use crate::named::first_named;
use crate::schema::{FieldID, Schema, Type};
use crate::text::views;

verus! {

/// Whether a feature is on for a name.
pub open spec fn is_on(flag: FeatureFlag, name: Seq<char>) -> bool {
    match flag {
        FeatureFlag::Disabled => false,
        FeatureFlag::Enabled => true,
        FeatureFlag::Limited { allowlist } => exists|i: int|
            0 <= i < allowlist@.len() && (#[trigger] allowlist@[i])@ == name,
    }
}

/// A feature is found to be on exactly where it is.
pub proof fn feature_is_found(flag: FeatureFlag, name: Seq<char>)
    ensures
        flag.spec_is_enabled_for(name) == is_on(flag, name),
{
    if let FeatureFlag::Limited { allowlist } = flag {
        if is_on(flag, name) {
            let i = choose|i: int| 0 <= i < allowlist@.len() && (#[trigger] allowlist@[i])@ == name;
            assert(views(allowlist@)[i] == name);
        }
        if views(allowlist@).contains(name) {
            let i = choose|i: int| 0 <= i < views(allowlist@).len() && views(allowlist@)[i] == name;
            assert(allowlist@[i]@ == name);
        }
    }
}

/// The text of a document's name.
pub open spec fn name_text(document: DocumentNameView) -> Seq<char> {
    match document {
        DocumentNameView::Operation(name) => name,
        DocumentNameView::Fragment(name) => name,
    }
}

/// The place of what no document holds.
pub open spec fn nowhere() -> Location {
    Location { source: SourceLocationKey::Generated, start: 0, end: 0 }
}

/// Whether a `@module` spread of a fragment on a type reads its data from a Relay Resolver model.
pub open spec fn reads_model(env: Env, type_: Type) -> bool {
    &&& env.imports.surface == Some(Surface::Resolvers)
    &&& type_ matches Type::Object(id) && is_modelled(env.program.schema, id)
}

/// Whether a `@module` spread of a fragment on a type is loaded by `js` fields: there is no dynamic
/// module provider, or it is for Relay Resolvers alone and the fragment has no model.
pub open spec fn loads_by_fields(env: Env, type_: Type) -> bool {
    ||| env.imports.dynamic_module_provider is None
    ||| env.imports.surface == Some(Surface::Resolvers) && !reads_model(env, type_)
}

/// An argument whose value is a string literal, name and value at one place.
pub open spec fn literal_argument(name: Seq<char>, value: Seq<char>, location: Location) -> ArgumentView {
    ArgumentView {
        name: WithLocation { location, item: name },
        value: WithLocation { location, item: literal(value) },
    }
}

/// Whether a field is the first of the listed ones that goes by `name`.
pub open spec fn is_first_called(
    schema: Schema,
    ids: Seq<FieldID>,
    name: Seq<char>,
    id: FieldID,
) -> bool {
    exists|i: int|
        {
            &&& 0 <= i < ids.len()
            &&& #[trigger] ids[i] == id
            &&& id < schema.fields@.len()
            &&& schema.fields@[id as int].name.item@ == name
            &&& forall|j: int|
                0 <= j < i ==> (#[trigger] ids[j]) < schema.fields@.len()
                    && schema.fields@[ids[j] as int].name.item@ != name
        }
}

/// Whether a field is the first of the listed ones that is called `js`.
pub open spec fn is_first_js(schema: Schema, ids: Seq<FieldID>, id: FieldID) -> bool {
    is_first_called(schema, ids, "js"@, id)
}

/// Whether a selection is the `js` field of a fragment's type under an alias, and loads a module. It
/// passes the module's name, the identifier where the field declares `id`, and the name of the type
/// where the field declares `branch` and the feature is on, in this order.
pub open spec fn loads_module(
    env: Env,
    selection: SelectionView,
    type_: Type,
    alias: Seq<char>,
    module: Seq<char>,
    module_id: Seq<char>,
    location: Location,
) -> bool {
    let schema = env.program.schema;
    &&& selection matches SelectionView::ScalarField(field)
    &&& type_ matches Type::Object(object)
    &&& object < schema.objects@.len()
    &&& is_first_js(schema, schema.objects@[object as int].fields@, field.definition.item)
    &&& field.alias == Some(WithLocation { location, item: alias })
    &&& field.definition.location == location
    &&& field.directives.len() == 0
    &&& {
        let declared = schema.fields@[field.definition.item as int]@.arguments;
        let takes_id = declares(declared, "id"@);
        let takes_branch = declares(declared, "branch"@) && env.branch_args;
        &&& field.arguments.len() == 1 + (if takes_id {
            1int
        } else {
            0
        }) + (if takes_branch {
            1int
        } else {
            0
        })
        &&& field.arguments[0] == literal_argument("module"@, module, location)
        &&& takes_id ==> field.arguments[1] == literal_argument("id"@, module_id, location)
        &&& takes_branch ==> exists|name: Seq<char>| #[trigger]
            is_type_string(schema, type_, name) && field.arguments.last() == literal_argument(
                "branch"@,
                name,
                location,
            )
    }
}

/// Whether `outer` is what takes the place of a `@module` spread that stands on `parent_type` in a
/// document, where the spread uses `fragment`, carries `directive` and names the module `name`.
pub open spec fn is_module_of(
    env: Env,
    document: DocumentNameView,
    parent_type: Type,
    key: Seq<char>,
    module_id: Seq<char>,
    spread: FragmentSpreadView,
    fragment: FragmentView,
    directive: DirectiveView,
    name: Seq<char>,
    outer: InlineFragmentView,
) -> bool {
    let place = directive.name.location;
    &&& outer.type_condition == Some(fragment.type_condition)
    &&& outer.directives.len() == 0
    &&& outer.spread_location == nowhere()
    &&& outer.selections.len() == 1
    &&& outer.selections[0] matches SelectionView::InlineFragment(inner)
    &&& inner.type_condition == Some(fragment.type_condition)
    &&& inner.spread_location == nowhere()
    &&& inner.directives.len() == 1
    &&& inner.directives[0].name == (WithLocation { location: nowhere(), item: "__ModuleMetadata"@ })
    &&& inner.directives[0].arguments.len() == 0
    &&& inner.directives[0].location == nowhere()
    &&& inner.directives[0].data matches Some(AssociatedDataView::Module(metadata))
    &&& metadata.location == place
    &&& metadata.key == key
    &&& metadata.module_id == module_id
    &&& metadata.module_name == name
    &&& metadata.source_document_name == document
    &&& metadata.fragment_name == spread.fragment.item
    &&& metadata.fragment_source_location == fragment.name.location
    &&& metadata.no_inline == is_on(env.no_inline_flag, spread.fragment.item)
    &&& metadata.read_time_resolvers == reads_model(env, fragment.type_condition)
    &&& metadata.read_time_resolvers ==> is_modelled_throughout(env.program.schema, parent_type)
    &&& inner.selections.len() == (if loads_by_fields(env, fragment.type_condition) {
        3int
    } else {
        1
    })
    &&& inner.selections[0] == SelectionView::FragmentSpread(
        FragmentSpreadView {
            fragment: spread.fragment,
            arguments: spread.arguments,
            directives: spread.directives.filter(|other: DirectiveView| other.name.item != "module"@),
        },
    )
    &&& loads_by_fields(env, fragment.type_condition) ==> {
        &&& loads_module(
            env,
            inner.selections[1],
            fragment.type_condition,
            "__module_operation_"@ + metadata.key,
            spread.fragment.item + "$normalization.graphql"@,
            metadata.module_id,
            place,
        )
        &&& loads_module(
            env,
            inner.selections[2],
            fragment.type_condition,
            "__module_component_"@ + metadata.key,
            metadata.module_name,
            metadata.module_id,
            place,
        )
    }
}

/// Whether `next` is what takes the place of a `@module` spread: it uses the fragment of the spread's
/// name, and names the module that the first `@module` directive gives in its first `name` argument.
pub open spec fn is_module(
    env: Env,
    document: DocumentNameView,
    parent_type: Type,
    key: Seq<char>,
    module_id: Seq<char>,
    spread: FragmentSpreadView,
    next: SelectionView,
) -> bool {
    exists|fragment: FragmentView, directive: DirectiveView, argument: ArgumentView, name: Seq<char>|
        {
            &&& #[trigger] is_fragment(env.program, spread.fragment.item, fragment)
            &&& #[trigger] is_first_directive(spread.directives, "module"@, directive)
            &&& #[trigger] is_first_argument(directive.arguments, "name"@, argument)
            &&& argument.value.item == #[trigger] literal(name)
            &&& next is InlineFragment
            &&& is_module_of(
                env,
                document,
                parent_type,
                key,
                module_id,
                spread,
                fragment,
                directive,
                name,
                next->InlineFragment_0,
            )
        }
}

/// The key of modules at a place: that of the closest field's `@match`, or else the document's name,
/// with every alias around behind it.
pub open spec fn key_at(document: DocumentNameView, given: Option<Seq<char>>, aliases: Seq<Seq<char>>) -> Seq<
    char,
> {
    marked(
        match given {
            Some(key) => key,
            None => name_text(document),
        },
        aliases,
        "_"@,
    )
}

/// A search for a field by its name finds the first of the listed ones that goes by it.
pub proof fn field_is_found(schema: Schema, ids: Seq<FieldID>, name: Seq<char>)
    ensures
        match schema.spec_field_named(ids, name) {
            Some(Some(id)) => is_first_called(schema, ids, name, id),
            Some(None) => forall|i: int|
                0 <= i < ids.len() ==> (#[trigger] ids[i]) < schema.fields@.len()
                    && schema.fields@[ids[i] as int].name.item@ != name,
            None => exists|i: int| 0 <= i < ids.len() && (#[trigger] ids[i]) >= schema.fields@.len(),
        },
    decreases ids.len(),
{
    if ids.len() > 0 {
        let rest = ids.drop_first();
        field_is_found(schema, rest, name);
        assert(ids[0] == ids[0]);
        if ids[0] < schema.fields@.len() && schema.fields@[ids[0] as int].name.item@ != name {
            match schema.spec_field_named(rest, name) {
                Some(Some(id)) => {
                    let k = choose|i: int|
                        {
                            &&& 0 <= i < rest.len()
                            &&& #[trigger] rest[i] == id
                            &&& id < schema.fields@.len()
                            &&& schema.fields@[id as int].name.item@ == name
                            &&& forall|j: int|
                                0 <= j < i ==> (#[trigger] rest[j]) < schema.fields@.len()
                                    && schema.fields@[rest[j] as int].name.item@ != name
                        };
                    assert(ids[k + 1] == rest[k]);
                    assert forall|j: int| 0 <= j < k + 1 implies (#[trigger] ids[j]) < schema.fields@.len()
                        && schema.fields@[ids[j] as int].name.item@ != name by {
                        if j > 0 {
                            assert(rest[j - 1] == ids[j]);
                        }
                    }
                },
                Some(None) => {
                    assert forall|i: int| 0 <= i < ids.len() implies (#[trigger] ids[i])
                        < schema.fields@.len() && schema.fields@[ids[i] as int].name.item@ != name by {
                        if i > 0 {
                            assert(rest[i - 1] == ids[i]);
                        }
                    }
                },
                None => {
                    let k = choose|i: int| 0 <= i < rest.len() && (#[trigger] rest[i]) >= schema.fields@.len();
                    assert(ids[k + 1] == rest[k]);
                },
            }
        }
    }
}

/// What takes the place of a `@module` spread is the spread itself, without `@module`, in an inline
/// fragment on its fragment's type that carries the metadata, with the two fields that load the
/// module where there is no dynamic module provider, or where it is for Relay Resolvers alone and the
/// fragment has no model. The fields are called after the key of the metadata.
pub proof fn replaced_spread_is_a_module(env: Env, scope: Scope, progress: Progress, spread: FragmentSpreadView)
    ensures
        visit_spread(env, scope, progress, spread) matches Some((_, next)) ==> next
            != SelectionView::FragmentSpread(spread) ==> is_module(
            env,
            scope.document,
            scope.parent_type,
            key_at(scope.document, scope.key, scope.aliases),
            marked(name_text(scope.document), path_items(scope.path), "."@),
            spread,
            next,
        ),
{
    let schema = env.program.schema;
    directive_is_found(spread.directives, "module"@);
    fragment_is_found(env.program, spread.fragment.item);
    feature_is_found(env.no_inline_flag, spread.fragment.item);
    if let Some((_, next)) = visit_spread(env, scope, progress, spread) {
        if next != SelectionView::FragmentSpread(spread) {
            let directive = first_named(spread.directives, "module"@)->0;
            let request = module_request(env, scope.parent_type, spread, directive)->0->Ok_0;
            let fragment = request.fragment;
            let type_ = fragment.type_condition;
            argument_is_found(directive.arguments, "name"@);
            let argument = first_named(directive.arguments, "name"@)->0;
            assert(argument.value.item == literal(request.module_name));
            lemma_key(scope);
            extending_marks_the_parts(name_text(scope.document), path_items(scope.path), "."@);
            lemma_models(env, scope.parent_type, spread, directive);
            lemma_fields(
                env,
                scope.module_key(),
                scope.module_id(),
                request.module_name,
                directive,
                fragment,
                spread,
            );
            let outer = next->InlineFragment_0;
            let inner = outer.selections[0]->InlineFragment_0;
            assert(inner.selections[0] == SelectionView::FragmentSpread(
                FragmentSpreadView {
                    fragment: spread.fragment,
                    arguments: spread.arguments,
                    directives: spread.directives.filter(|other: DirectiveView| other.name.item != "module"@),
                },
            ));
            assert(is_module_of(
                env,
                scope.document,
                scope.parent_type,
                key_at(scope.document, scope.key, scope.aliases),
                marked(name_text(scope.document), path_items(scope.path), "."@),
                spread,
                fragment,
                directive,
                request.module_name,
                outer,
            ));
        }
    }
}

/// The two fields that are made for a spread load its normalization file and its module.
proof fn lemma_fields(
    env: Env,
    key: Seq<char>,
    module_id: Seq<char>,
    name: Seq<char>,
    directive: DirectiveView,
    fragment: FragmentView,
    spread: FragmentSpreadView,
)
    ensures
        js_fields(env, key, module_id, name, directive, fragment, spread) matches Some(
            Ok((operation, component)),
        ) ==> {
            &&& loads_module(
                env,
                operation,
                fragment.type_condition,
                "__module_operation_"@ + key,
                spread.fragment.item + "$normalization.graphql"@,
                module_id,
                directive.name.location,
            )
            &&& loads_module(
                env,
                component,
                fragment.type_condition,
                "__module_component_"@ + key,
                name,
                module_id,
                directive.name.location,
            )
        },
{
    let schema = env.program.schema;
    let type_ = fragment.type_condition;
    type_string_is_found(schema, type_);
    if let Type::Object(object) = type_ {
        if object < schema.objects@.len() {
            let ids = schema.objects@[object as int].fields@;
            field_is_found(schema, ids, "js"@);
            if let Some(Some(id)) = schema.spec_field_named(ids, "js"@) {
                let declared = schema.fields@[id as int]@.arguments;
                declared_is_found(declared, "id"@);
                declared_is_found(declared, "branch"@);
                if let Some(Ok((operation, component))) = js_fields(
                    env,
                    key,
                    module_id,
                    name,
                    directive,
                    fragment,
                    spread,
                ) {
                    if declares(declared, "branch"@) && env.branch_args {
                        assert(is_type_string(schema, type_, schema.spec_get_type_name(type_)->0));
                    }
                    assert(operation->ScalarField_0.definition.item == id);
                    assert(component->ScalarField_0.definition.item == id);
                }
            }
        }
    }
}

/// The key at a place is the one that is computed there.
pub(super) proof fn lemma_key(scope: Scope)
    ensures
        scope.module_key() == key_at(scope.document, scope.key, scope.aliases),
{
    let put = |part: Seq<char>| "_"@ + part;
    let base = match scope.key {
        Some(key) => key,
        None => name_text(scope.document),
    };
    joining_marks_the_others(scope.aliases, "_"@);
    if scope.aliases.len() == 0 {
        assert(scope.aliases.map_values(put) =~= Seq::empty());
        assert(base + scope.aliases.map_values(put).flatten() =~= base);
    } else {
        let others = scope.aliases.drop_first();
        assert(scope.aliases.map_values(put).drop_first() =~= others.map_values(put));
        assert(scope.aliases.map_values(put).first() == "_"@ + scope.aliases[0]);
        assert(scope.aliases.map_values(put).flatten() == ("_"@ + scope.aliases[0]) + others.map_values(
            put,
        ).flatten());
        assert(base + "_"@ + (scope.aliases[0] + others.map_values(put).flatten()) =~= base + (("_"@
            + scope.aliases[0]) + others.map_values(put).flatten()));
    }
}

/// An accepted `@module` spread reads a model exactly where its fragment's type has one, and then so
/// do all types that it can meet; it is loaded by fields exactly where it has to be.
proof fn lemma_models(env: Env, parent_type: Type, spread: FragmentSpreadView, directive: DirectiveView)
    ensures
        module_request(env, parent_type, spread, directive) matches Some(Ok(request)) ==> {
            let type_ = request.fragment.type_condition;
            &&& request.read_time_resolvers == reads_model(env, type_)
            &&& request.read_time_resolvers ==> is_modelled_throughout(env.program.schema, parent_type)
            &&& request.needs_js_fields == loads_by_fields(env, type_)
        },
{
    let schema = env.program.schema;
    if let Some(fragment) = env.program.fragment(spread.fragment.item) {
        if let Type::Object(id) = fragment.type_condition {
            model_is_found(schema, id);
        }
    }
    match parent_type {
        Type::Object(id) => {
            model_is_found(schema, id);
        },
        Type::Interface(id) => {
            if id < schema.interfaces@.len() {
                models_are_found_throughout(schema, schema.interfaces@[id as int].implementing_objects@);
            }
        },
        Type::Union(id) => {
            if id < schema.unions@.len() {
                models_are_found_throughout(schema, schema.unions@[id as int].members@);
            }
        },
        _ => {},
    }
}

} // verus!
