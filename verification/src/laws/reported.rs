//! What is reported of `@module` spreads and of `js` fields.

use vstd::prelude::*;

use crate::config::Surface;
use crate::diagnostic::{DiagnosticView, MessageView};
use crate::ir::{
    ArgumentView, DirectiveView, FragmentSpreadView, FragmentView, ScalarFieldView, SelectionView,
};
use crate::laws::places::{named_type, named_type_is_found};
use crate::laws::replaced::{
    feature_is_found, field_is_found, is_first_js, is_on, key_at, lemma_key, reads_model,
};
use crate::laws::terms::{
    argument_is_found, declared_is_found, declares, directive_is_found, fragment_is_found,
    has_argument, has_directive, has_fragment, has_type, is_first_argument, is_first_declared,
    is_first_directive, is_fragment, is_modelled_throughout, is_type, is_type_string,
    joining_marks_the_others, literal, marked, model_is_found, models_are_found_throughout,
    type_is_found, type_string_is_found,
};
use crate::location::{Location, WithLocation};
use crate::model::{
    first_disallowed, is_js_field, js_field_args, js_module_type, key_taken, module_name,
    module_request, path_items, register, resolver_model, scalar_errors, takes_string, visit_spread,
    Env, MatchMap, MatchesView, Progress, Scope, TypeMatchView,
};
use crate::named::first_named;
use crate::schema::{ArgumentDefinitionView, FieldView, Schema, Type, TypeReference};

verus! {

/// Whether a spread has arguments that need the feature, and the feature is off for it.
pub open spec fn has_stray_arguments(env: Env, spread: FragmentSpreadView) -> bool {
    !is_on(env.no_inline_flag, spread.fragment.item) && spread.arguments.len() > 0
}

/// Whether a directive may not stand beside `@module`.
pub open spec fn is_stray(env: Env, directive: DirectiveView) -> bool {
    &&& directive.name.item != "module"@
    &&& directive.name.item != env.defer_name
    &&& directive.name.item != "alias"@
}

/// Whether a spread carries a directive that may not stand beside `@module`.
pub open spec fn has_stray_directive(env: Env, spread: FragmentSpreadView) -> bool {
    exists|i: int| 0 <= i < spread.directives.len() && is_stray(env, #[trigger] spread.directives[i])
}

/// Whether a spread uses a fragment that has a model, where models matter.
pub open spec fn has_model(env: Env, spread: FragmentSpreadView) -> bool {
    exists|fragment: FragmentView| #[trigger]
        is_fragment(env.program, spread.fragment.item, fragment) && reads_model(env, fragment.type_condition)
}

/// Whether a spread is to be loaded by `js` fields.
pub open spec fn needs_fields(env: Env, spread: FragmentSpreadView) -> bool {
    ||| env.imports.dynamic_module_provider is None
    ||| env.imports.surface == Some(Surface::Resolvers) && !has_model(env, spread)
}

/// Whether the type of `js` fields is a scalar that the server knows.
pub open spec fn has_js_type(schema: Schema) -> bool {
    exists|id: u32| #[trigger]
        is_type(schema, "JSDependency"@, Type::Scalar(id)) && id < schema.scalars@.len()
            && !schema.scalars@[id as int].is_extension
}

/// Whether a reference holds a list.
pub open spec fn has_list(reference: TypeReference) -> bool
    decreases reference,
{
    match reference {
        TypeReference::Named(_) => false,
        TypeReference::NonNull(of) => has_list(*of),
        TypeReference::List(_) => true,
    }
}

/// Whether a reference is a string, and no list.
pub open spec fn is_string(schema: Schema, reference: TypeReference) -> bool {
    !has_list(reference) && named_type(reference) == schema.string_type
}

/// Whether an argument of a name takes a string.
pub open spec fn declares_string(schema: Schema, field: FieldView, name: Seq<char>) -> bool {
    exists|declared: ArgumentDefinitionView| #[trigger]
        is_first_declared(field.arguments, name, declared) && is_string(schema, declared.type_)
}

/// Whether a field is declared as `js(module: String!, id: String, branch: String): JSDependency`,
/// where `id` and `branch` may be left out.
pub open spec fn is_proper_js(schema: Schema, field: FieldView) -> bool {
    &&& is_type(schema, "JSDependency"@, named_type(field.type_))
    &&& declares_string(schema, field, "module"@)
    &&& declares(field.arguments, "id"@) ==> declares_string(schema, field, "id"@)
    &&& declares(field.arguments, "branch"@) ==> declares_string(schema, field, "branch"@)
}

/// Whether the type of a fragment has a proper `js` field: the first that is called so is one.
pub open spec fn has_proper_js(schema: Schema, type_: Type) -> bool {
    &&& type_ matches Type::Object(object)
    &&& object < schema.objects@.len()
    &&& exists|id: u32| #[trigger]
        is_first_js(schema, schema.objects@[object as int].fields@, id) && is_proper_js(
            schema,
            schema.fields@[id as int]@,
        )
}

/// Whether a report is of a message at a place, without notes.
pub open spec fn says(error: DiagnosticView, message: MessageView, location: Location) -> bool {
    error.message == message && error.location == location && error.related.len() == 0
}

/// Whether a report is of a message at a place, with a note on another place.
pub open spec fn says_with(
    error: DiagnosticView,
    message: MessageView,
    location: Location,
    note: Seq<char>,
    other: Location,
) -> bool {
    &&& error.message == message
    &&& error.location == location
    &&& error.related.len() == 1
    &&& error.related[0] == (WithLocation { location: other, item: note })
}

/// Whether a spread passes the checks of its arguments, its directives and its parent type.
pub open spec fn passes_first(env: Env, parent_type: Type, spread: FragmentSpreadView) -> bool {
    &&& !has_stray_arguments(env, spread)
    &&& !has_stray_directive(env, spread)
    &&& has_model(env, spread) ==> is_modelled_throughout(env.program.schema, parent_type)
}

/// Whether a `@module` spread that does not pass for itself is rightly reported. The checks are made
/// in this order: arguments, other directives, models of the parent type, the type of `js` fields,
/// `@inline` on the fragment, and the module's name.
pub open spec fn is_rejected(
    env: Env,
    parent_type: Type,
    spread: FragmentSpreadView,
    directive: DirectiveView,
    error: DiagnosticView,
) -> bool {
    let schema = env.program.schema;
    let place = spread.fragment.location;
    let fragment_checked = {
        &&& passes_first(env, parent_type, spread)
        &&& needs_fields(env, spread) ==> has_js_type(schema)
    };
    match error.message {
        MessageView::InvalidModuleWithArguments => {
            &&& has_stray_arguments(env, spread)
            &&& says(error, error.message, spread.arguments[0].name.location)
        },
        MessageView::InvalidModuleWithAdditionalDirectives { spread_name } => {
            &&& !has_stray_arguments(env, spread)
            &&& spread_name == spread.fragment.item
            &&& exists|i: int|
                {
                    &&& 0 <= i < spread.directives.len()
                    &&& is_stray(env, #[trigger] spread.directives[i])
                    &&& forall|j: int| 0 <= j < i ==> !is_stray(env, #[trigger] spread.directives[j])
                    &&& says(error, error.message, spread.directives[i].location)
                }
        },
        MessageView::MissingRelayResolverModelForInterface { spread_name, parent_interface } => {
            &&& !has_stray_arguments(env, spread)
            &&& !has_stray_directive(env, spread)
            &&& has_model(env, spread)
            &&& !is_modelled_throughout(schema, parent_type)
            &&& parent_type is Interface
            &&& spread_name == spread.fragment.item
            &&& is_type_string(schema, parent_type, parent_interface)
            &&& says(error, error.message, place)
        },
        MessageView::MissingRelayResolverModelForUnion { spread_name, parent_union } => {
            &&& !has_stray_arguments(env, spread)
            &&& !has_stray_directive(env, spread)
            &&& has_model(env, spread)
            &&& !is_modelled_throughout(schema, parent_type)
            &&& parent_type is Union
            &&& spread_name == spread.fragment.item
            &&& is_type_string(schema, parent_type, parent_union)
            &&& says(error, error.message, place)
        },
        MessageView::MissingRelayResolverModelForObject { spread_name, object } => {
            &&& !has_stray_arguments(env, spread)
            &&& !has_stray_directive(env, spread)
            &&& has_model(env, spread)
            &&& !is_modelled_throughout(schema, parent_type)
            &&& parent_type is Object
            &&& spread_name == spread.fragment.item
            &&& is_type_string(schema, parent_type, object)
            &&& says(error, error.message, place)
        },
        MessageView::MissingServerSchemaDefinition { name } => {
            &&& passes_first(env, parent_type, spread)
            &&& needs_fields(env, spread)
            &&& name == "js"@
            &&& !has_type(schema, "JSDependency"@) || exists|id: u32| #[trigger]
                is_type(schema, "JSDependency"@, Type::Scalar(id)) && id < schema.scalars@.len()
                    && schema.scalars@[id as int].is_extension
            &&& says(error, error.message, place)
        },
        MessageView::InvalidModuleNonScalarJSField { js_field_type } => {
            &&& passes_first(env, parent_type, spread)
            &&& needs_fields(env, spread)
            &&& js_field_type == "JSDependency"@
            &&& has_type(schema, "JSDependency"@)
            &&& forall|id: u32| !#[trigger] is_type(schema, "JSDependency"@, Type::Scalar(id))
            &&& says(error, error.message, place)
        },
        MessageView::InvalidModuleWithInline => {
            &&& fragment_checked
            &&& exists|fragment: FragmentView, inline: DirectiveView|
                {
                    &&& #[trigger] is_fragment(env.program, spread.fragment.item, fragment)
                    &&& #[trigger] is_first_directive(fragment.directives, "inline"@, inline)
                    &&& says_with(
                        error,
                        error.message,
                        directive.location,
                        "@inline directive location"@,
                        inline.location,
                    )
                }
        },
        MessageView::InvalidModuleNoName => {
            &&& fragment_checked
            &&& is_not_inline(env, spread)
            &&& !has_argument(directive.arguments, "name"@)
            &&& says(error, error.message, place)
        },
        MessageView::InvalidModuleNonLiteralName => {
            &&& fragment_checked
            &&& is_not_inline(env, spread)
            &&& exists|argument: ArgumentView| #[trigger]
                is_first_argument(directive.arguments, "name"@, argument) && {
                    &&& forall|name: Seq<char>| argument.value.item != #[trigger] literal(name)
                    &&& says(error, error.message, argument.name.location)
                }
        },
        _ => false,
    }
}

/// Whether a spread uses a fragment that exists and does not carry `@inline`.
pub open spec fn is_not_inline(env: Env, spread: FragmentSpreadView) -> bool {
    exists|fragment: FragmentView| #[trigger]
        is_fragment(env.program, spread.fragment.item, fragment) && !has_directive(
            fragment.directives,
            "inline"@,
        )
}

/// Whether a number is missing from the schema where a `@module` spread leads to it, or the spread
/// leads nowhere.
pub open spec fn leads_nowhere(env: Env, parent_type: Type, spread: FragmentSpreadView) -> bool {
    let schema = env.program.schema;
    ||| !has_fragment(env.program, spread.fragment.item)
    ||| env.imports.surface == Some(Surface::Resolvers) && {
        ||| exists|fragment: FragmentView| #[trigger]
            is_fragment(env.program, spread.fragment.item, fragment) && (
            fragment.type_condition matches Type::Object(id) && id >= schema.objects@.len())
        ||| match parent_type {
            Type::Object(id) => id >= schema.objects@.len(),
            Type::Interface(id) => id >= schema.interfaces@.len() || exists|i: int|
                0 <= i < schema.interfaces@[id as int].implementing_objects@.len() && (
                #[trigger] schema.interfaces@[id as int].implementing_objects@[i]) >= schema.objects@.len(),
            Type::Union(id) => id >= schema.unions@.len() || exists|i: int|
                0 <= i < schema.unions@[id as int].members@.len() && (
                #[trigger] schema.unions@[id as int].members@[i]) >= schema.objects@.len(),
            _ => true,
        }
    }
    ||| exists|id: u32| #[trigger]
        is_type(schema, "JSDependency"@, Type::Scalar(id)) && id >= schema.scalars@.len()
}

/// A directive is found to be out of place exactly where the first such directive stands.
proof fn lemma_stray(env: Env, directives: Seq<DirectiveView>)
    ensures
        match first_disallowed(env, directives) {
            None => forall|i: int| 0 <= i < directives.len() ==> !is_stray(env, #[trigger] directives[i]),
            Some(directive) => exists|i: int|
                {
                    &&& 0 <= i < directives.len()
                    &&& #[trigger] directives[i] == directive
                    &&& is_stray(env, directive)
                    &&& forall|j: int| 0 <= j < i ==> !is_stray(env, #[trigger] directives[j])
                },
        },
    decreases directives.len(),
{
    if directives.len() > 0 {
        let rest = directives.drop_first();
        lemma_stray(env, rest);
        assert(directives[0] == directives[0]);
        if !is_stray(env, directives[0]) {
            match first_disallowed(env, rest) {
                None => {
                    assert forall|i: int| 0 <= i < directives.len() implies !is_stray(
                        env,
                        #[trigger] directives[i],
                    ) by {
                        if i > 0 {
                            assert(rest[i - 1] == directives[i]);
                        }
                    }
                },
                Some(directive) => {
                    let k = choose|i: int|
                        {
                            &&& 0 <= i < rest.len()
                            &&& #[trigger] rest[i] == directive
                            &&& is_stray(env, directive)
                            &&& forall|j: int| 0 <= j < i ==> !is_stray(env, #[trigger] rest[j])
                        };
                    assert(directives[k + 1] == directive);
                    assert forall|j: int| 0 <= j < k + 1 implies !is_stray(env, #[trigger] directives[j]) by {
                        if j > 0 {
                            assert(rest[j - 1] == directives[j]);
                        }
                    }
                },
            }
        }
    }
}

/// Models are asked for where they matter, and the answer is right.
proof fn lemma_resolver_model(env: Env, parent_type: Type, spread: FragmentSpreadView)
    requires
        env.imports.surface == Some(Surface::Resolvers),
    ensures
        match resolver_model(env.program, parent_type, spread) {
            None => leads_nowhere(env, parent_type, spread),
            Some(Ok(true)) => has_model(env, spread) && is_modelled_throughout(
                env.program.schema,
                parent_type,
            ),
            Some(Ok(false)) => !has_model(env, spread),
            Some(Err(error)) => {
                &&& has_model(env, spread)
                &&& !is_modelled_throughout(env.program.schema, parent_type)
                &&& says(error, error.message, spread.fragment.location)
                &&& match error.message {
                    MessageView::MissingRelayResolverModelForInterface { spread_name, parent_interface } => {
                        &&& parent_type is Interface
                        &&& spread_name == spread.fragment.item
                        &&& is_type_string(env.program.schema, parent_type, parent_interface)
                    },
                    MessageView::MissingRelayResolverModelForUnion { spread_name, parent_union } => {
                        &&& parent_type is Union
                        &&& spread_name == spread.fragment.item
                        &&& is_type_string(env.program.schema, parent_type, parent_union)
                    },
                    MessageView::MissingRelayResolverModelForObject { spread_name, object } => {
                        &&& parent_type is Object
                        &&& spread_name == spread.fragment.item
                        &&& is_type_string(env.program.schema, parent_type, object)
                    },
                    _ => false,
                }
            },
        },
{
    let schema = env.program.schema;
    fragment_is_found(env.program, spread.fragment.item);
    if let Some(fragment) = env.program.fragment(spread.fragment.item) {
        assert(is_fragment(env.program, spread.fragment.item, fragment));
        if let Type::Object(id) = fragment.type_condition {
            model_is_found(schema, id);
        }
    }
    match parent_type {
        Type::Object(id) => {
            model_is_found(schema, id);
        },
        Type::Interface(id) => {
            if id < schema.interfaces@.len() {
                models_are_found_throughout(schema, schema.interfaces@[id as int].implementing_objects@);
            }
        },
        Type::Union(id) => {
            if id < schema.unions@.len() {
                models_are_found_throughout(schema, schema.unions@[id as int].members@);
            }
        },
        _ => {},
    }
}

/// The type of `js` fields is looked up, and the answer is right.
proof fn lemma_js_type(schema: Schema, location: Location)
    ensures
        match js_module_type(schema, location) {
            None => exists|id: u32| #[trigger]
                is_type(schema, "JSDependency"@, Type::Scalar(id)) && id >= schema.scalars@.len(),
            Some(Ok(_)) => has_js_type(schema),
            Some(Err(error)) => {
                &&& !has_js_type(schema)
                &&& says(error, error.message, location)
                &&& match error.message {
                    MessageView::MissingServerSchemaDefinition { name } => {
                        &&& name == "js"@
                        &&& !has_type(schema, "JSDependency"@) || exists|id: u32| #[trigger]
                            is_type(schema, "JSDependency"@, Type::Scalar(id)) && id < schema.scalars@.len()
                                && schema.scalars@[id as int].is_extension
                    },
                    MessageView::InvalidModuleNonScalarJSField { js_field_type } => {
                        &&& js_field_type == "JSDependency"@
                        &&& has_type(schema, "JSDependency"@)
                        &&& forall|id: u32| !#[trigger] is_type(schema, "JSDependency"@, Type::Scalar(id))
                    },
                    _ => false,
                }
            },
        },
{
    type_is_found(schema, "JSDependency"@);
    if let Some(type_) = schema.spec_get_type("JSDependency"@) {
        assert(is_type(schema, "JSDependency"@, type_));
    }
}

/// A `@module` spread passes for itself, or it is rightly rejected.
pub proof fn spread_passes_or_is_rejected(
    env: Env,
    parent_type: Type,
    spread: FragmentSpreadView,
    directive: DirectiveView,
)
    ensures
        match module_request(env, parent_type, spread, directive) {
            None => leads_nowhere(env, parent_type, spread),
            Some(Err(error)) => is_rejected(env, parent_type, spread, directive, error),
            Some(Ok(request)) => {
                &&& passes_first(env, parent_type, spread)
                &&& needs_fields(env, spread) ==> has_js_type(env.program.schema)
                &&& is_fragment(env.program, spread.fragment.item, request.fragment)
                &&& !has_directive(request.fragment.directives, "inline"@)
                &&& exists|argument: ArgumentView| #[trigger]
                    is_first_argument(directive.arguments, "name"@, argument) && argument.value.item
                        == literal(request.module_name)
                &&& request.needs_js_fields == needs_fields(env, spread)
                &&& request.no_inline == is_on(env.no_inline_flag, spread.fragment.item)
            },
        },
{
    let schema = env.program.schema;
    feature_is_found(env.no_inline_flag, spread.fragment.item);
    lemma_stray(env, spread.directives);
    lemma_js_type(schema, spread.fragment.location);
    fragment_is_found(env.program, spread.fragment.item);
    argument_is_found(directive.arguments, "name"@);
    if env.imports.surface == Some(Surface::Resolvers) {
        lemma_resolver_model(env, parent_type, spread);
    } else {
        assert(!has_model(env, spread));
    }
    if let Some(fragment) = env.program.fragment(spread.fragment.item) {
        assert(is_fragment(env.program, spread.fragment.item, fragment));
        directive_is_found(fragment.directives, "inline"@);
        if let Some(inline) = first_named(fragment.directives, "inline"@) {
            assert(is_first_directive(fragment.directives, "inline"@, inline));
        }
    }
    if let Some(argument) = first_named(directive.arguments, "name"@) {
        assert(is_first_argument(directive.arguments, "name"@, argument));
        if let Ok(name) = module_name(directive, spread.fragment.location) {
            assert(argument.value.item == literal(name));
        }
    }
    match module_request(env, parent_type, spread, directive) {
        Some(Err(error)) => {
            if has_stray_arguments(env, spread) {
            } else if first_disallowed(env, spread.directives) is Some {
                let stray = first_disallowed(env, spread.directives)->0;
                let i = choose|i: int|
                    {
                        &&& 0 <= i < spread.directives.len()
                        &&& #[trigger] spread.directives[i] == stray
                        &&& is_stray(env, stray)
                        &&& forall|j: int| 0 <= j < i ==> !is_stray(env, #[trigger] spread.directives[j])
                    };
                assert(is_stray(env, spread.directives[i]));
            } else {
                assert(!has_stray_directive(env, spread));
            }
        },
        Some(Ok(_)) => {
            assert(!has_stray_directive(env, spread));
        },
        None => {},
    }
}

/// Whether two spreads for one type at one path differ in their fragments or modules.
pub open spec fn clashes(previous: TypeMatchView, spread: FragmentSpreadView, name: Seq<char>) -> bool {
    previous.fragment.item != spread.fragment.item || previous.module_name != name
}

/// Whether other spreads go by a key.
pub open spec fn is_taken(matches: MatchMap, key: Seq<char>) -> bool {
    exists|path: Seq<Seq<char>>| #[trigger] matches.contains_key(path) && matches[path].key == key
}

/// A path as it is written out: its steps with dots in between.
pub open spec fn dotted(path: Seq<Seq<char>>) -> Seq<char> {
    if path.len() == 0 {
        Seq::empty()
    } else {
        marked(path[0], path.drop_first(), "."@)
    }
}

/// The records with one more spread: the record at its path has its key, and the spread for its type
/// unless there is one.
pub open spec fn with_record(
    matches: MatchMap,
    path: Seq<Seq<char>>,
    key: Seq<char>,
    type_: Type,
    spread: FragmentSpreadView,
    name: Seq<char>,
) -> MatchMap {
    let types = if matches.contains_key(path) {
        matches[path].types
    } else {
        Map::empty()
    };
    matches.insert(
        path,
        MatchesView {
            key,
            types: if types.contains_key(type_) {
                types
            } else {
                types.insert(type_, TypeMatchView { fragment: spread.fragment, module_name: name })
            },
        },
    )
}

/// A spread is recorded unless it clashes: with spreads of its key at other paths, or with another
/// spread for its type at its path.
pub proof fn spread_is_recorded_or_clashes(
    schema: Schema,
    scope: Scope,
    matches: MatchMap,
    type_: Type,
    spread: FragmentSpreadView,
    name: Seq<char>,
)
    ensures
        ({
            let path = path_items(scope.path);
            let key = key_at(scope.document, scope.key, scope.aliases);
            match register(
                schema,
                scope,
                matches,
                type_,
                TypeMatchView { fragment: spread.fragment, module_name: name },
            ) {
                None => {
                    ||| matches.contains_key(path) && matches[path].key != key
                    ||| !matches.contains_key(path) && is_taken(matches, key) && scope.path.len() == 0
                    ||| forall|text: Seq<char>| !is_type_string(schema, type_, text)
                },
                Some(Ok(after)) => {
                    &&& after == with_record(matches, path, key, type_, spread, name)
                    &&& matches.contains_key(path) ==> matches[path].key == key
                    &&& !matches.contains_key(path) ==> !is_taken(matches, key)
                    &&& matches.contains_key(path) && matches[path].types.contains_key(type_) ==> !clashes(
                        matches[path].types[type_],
                        spread,
                        name,
                    )
                },
                Some(Err(error)) => match error.message {
                    MessageView::InvalidModuleSelectionWithoutKey { document_name, parent_name } => {
                        &&& !matches.contains_key(path)
                        &&& is_taken(matches, key)
                        &&& scope.path.len() > 0
                        &&& document_name == scope.document
                        &&& parent_name == scope.path.last().item
                        &&& says(error, error.message, scope.path.last().location)
                    },
                    MessageView::InvalidModuleSelectionMultipleMatches { type_string, alias_path } => {
                        &&& matches.contains_key(path)
                        &&& matches[path].key == key
                        &&& matches[path].types.contains_key(type_)
                        &&& clashes(matches[path].types[type_], spread, name)
                        &&& is_type_string(schema, type_, type_string)
                        &&& alias_path == dotted(path)
                        &&& says_with(
                            error,
                            error.message,
                            spread.fragment.location,
                            "related location"@,
                            matches[path].types[type_].fragment.location,
                        )
                    },
                    _ => false,
                },
            }
        }),
{
    let path = path_items(scope.path);
    let key = key_at(scope.document, scope.key, scope.aliases);
    lemma_key(scope);
    joining_marks_the_others(path, "."@);
    type_string_is_found(schema, type_);
    assert(key_taken(matches, key) == is_taken(matches, key));
    let entry = TypeMatchView { fragment: spread.fragment, module_name: name };
    if path.len() == 0 {
        assert(crate::text::joined(path, "."@) =~= Seq::empty());
    }
    if let Some(Ok(after)) = register(schema, scope, matches, type_, entry) {
        assert(after =~= with_record(matches, path, key, type_, spread, name));
    }
}

/// The type that a reference names outside of lists is found.
proof fn lemma_non_list(reference: TypeReference)
    ensures
        reference.spec_non_list_type() == (if has_list(reference) {
            None
        } else {
            Some(named_type(reference))
        }),
    decreases reference,
{
    if let TypeReference::NonNull(of) = reference {
        lemma_non_list(*of);
    }
}

/// A field is found to be a proper `js` field exactly where it is.
proof fn lemma_proper_js(schema: Schema, field: FieldView)
    ensures
        is_js_field(schema, field) == is_proper_js(schema, field),
{
    type_is_found(schema, "JSDependency"@);
    named_type_is_found(field.type_);
    lemma_declared(schema, field, "module"@);
    lemma_declared(schema, field, "id"@);
    lemma_declared(schema, field, "branch"@);
}

/// An argument is found to take a string exactly where it does.
proof fn lemma_declared(schema: Schema, field: FieldView, name: Seq<char>)
    ensures
        takes_string(schema, first_named(field.arguments, name), false) == declares_string(schema, field, name),
        takes_string(schema, first_named(field.arguments, name), true) == (declares(field.arguments, name)
            ==> declares_string(schema, field, name)),
{
    declared_is_found(field.arguments, name);
    if let Some(declared) = first_named(field.arguments, name) {
        assert(is_first_declared(field.arguments, name, declared));
        lemma_non_list(declared.type_);
        assert forall|other: ArgumentDefinitionView| #[trigger]
            is_first_declared(field.arguments, name, other) implies other == declared by {}
    }
}

/// The `js` field of a fragment's type has to be a proper one; otherwise that is reported.
pub proof fn js_field_has_to_be_proper(env: Env, fragment: FragmentView, spread: FragmentSpreadView)
    ensures
        match js_field_args(env.program.schema, fragment, spread) {
            None => {
                ||| forall|text: Seq<char>|
                    !is_type_string(env.program.schema, fragment.type_condition, text)
                ||| fragment.type_condition matches Type::Object(object) && exists|i: int|
                    0 <= i < env.program.schema.objects@[object as int].fields@.len() && (
                    #[trigger] env.program.schema.objects@[object as int].fields@[i])
                        >= env.program.schema.fields@.len()
            },
            Some(Ok((id, takes_id, takes_branch))) => {
                &&& has_proper_js(env.program.schema, fragment.type_condition)
                &&& is_first_js(
                    env.program.schema,
                    env.program.schema.objects@[fragment.type_condition->Object_0 as int].fields@,
                    id,
                )
                &&& takes_id == declares(env.program.schema.fields@[id as int]@.arguments, "id"@)
                &&& takes_branch == declares(env.program.schema.fields@[id as int]@.arguments, "branch"@)
            },
            Some(Err(error)) => {
                &&& says_with(
                    error,
                    error.message,
                    spread.fragment.location,
                    "related location"@,
                    fragment.name.location,
                )
                &&& match error.message {
                    MessageView::InvalidModuleNotOnObject { spread_name, type_string } => {
                        &&& !(fragment.type_condition is Object)
                        &&& spread_name == spread.fragment.item
                        &&& is_type_string(env.program.schema, fragment.type_condition, type_string)
                    },
                    MessageView::InvalidModuleInvalidSchemaArguments {
                        spread_name,
                        type_string,
                        js_field_name,
                        js_field_module_arg,
                        js_field_id_arg,
                        js_field_type,
                    } => {
                        &&& fragment.type_condition is Object
                        &&& !has_proper_js(env.program.schema, fragment.type_condition)
                        &&& spread_name == spread.fragment.item
                        &&& is_type_string(env.program.schema, fragment.type_condition, type_string)
                        &&& js_field_name == "js"@
                        &&& js_field_module_arg == "module"@
                        &&& js_field_id_arg == "id"@
                        &&& js_field_type == "JSDependency"@
                    },
                    _ => false,
                }
            },
        },
{
    let schema = env.program.schema;
    type_string_is_found(schema, fragment.type_condition);
    if let Type::Object(object) = fragment.type_condition {
        if object < schema.objects@.len() {
            let ids = schema.objects@[object as int].fields@;
            field_is_found(schema, ids, "js"@);
            match schema.spec_field_named(ids, "js"@) {
                Some(Some(id)) => {
                    assert(is_first_js(schema, ids, id));
                    lemma_proper_js(schema, schema.fields@[id as int]@);
                    declared_is_found(schema.fields@[id as int]@.arguments, "id"@);
                    declared_is_found(schema.fields@[id as int]@.arguments, "branch"@);
                    assert forall|other: u32| #[trigger] is_first_js(schema, ids, other) implies other == id by {
                        lemma_first_js(schema, ids, id, other);
                    }
                },
                Some(None) => {
                    assert forall|other: u32| !#[trigger] is_first_js(schema, ids, other) by {}
                },
                None => {},
            }
        }
    }
}

/// There is one first `js` field.
proof fn lemma_first_js(schema: Schema, ids: Seq<u32>, first: u32, second: u32)
    requires
        is_first_js(schema, ids, first),
        is_first_js(schema, ids, second),
    ensures
        first == second,
{
    let i = choose|i: int|
        {
            &&& 0 <= i < ids.len()
            &&& #[trigger] ids[i] == first
            &&& first < schema.fields@.len()
            &&& schema.fields@[first as int].name.item@ == "js"@
            &&& forall|j: int|
                0 <= j < i ==> (#[trigger] ids[j]) < schema.fields@.len()
                    && schema.fields@[ids[j] as int].name.item@ != "js"@
        };
    let k = choose|i: int|
        {
            &&& 0 <= i < ids.len()
            &&& #[trigger] ids[i] == second
            &&& second < schema.fields@.len()
            &&& schema.fields@[second as int].name.item@ == "js"@
            &&& forall|j: int|
                0 <= j < i ==> (#[trigger] ids[j]) < schema.fields@.len()
                    && schema.fields@[ids[j] as int].name.item@ != "js"@
        };
    if i < k {
        assert(ids[i] == first);
    }
    if k < i {
        assert(ids[k] == second);
    }
}

/// What is reported of a field without selections: a `js` field that returns the schema's scalar
/// `JSDependency`, and any field called `js` where the schema has no type of that name.
pub proof fn js_fields_are_reported(schema: Schema, field: ScalarFieldView)
    ensures
        match scalar_errors(schema, field) {
            None => field.definition.item >= schema.fields@.len(),
            Some(errors) => {
                let definition = schema.fields@[field.definition.item as int]@;
                let is_js = definition.name.item == "js"@;
                let loads = named_type(definition.type_) is Scalar && is_type(
                    schema,
                    "JSDependency"@,
                    named_type(definition.type_),
                );
                &&& field.definition.item < schema.fields@.len()
                &&& if is_js && !has_type(schema, "JSDependency"@) {
                    errors.len() == 1 && says(
                        errors[0],
                        MessageView::MissingServerSchemaDefinition { name: "js"@ },
                        field.definition.location,
                    )
                } else if is_js && loads {
                    errors.len() == 1 && says(
                        errors[0],
                        MessageView::InvalidDirectUseOfJSField { field_name: "js"@ },
                        field.definition.location,
                    )
                } else {
                    errors.len() == 0
                }
            },
        },
{
    type_is_found(schema, "JSDependency"@);
    if field.definition.item < schema.fields@.len() {
        named_type_is_found(schema.fields@[field.definition.item as int].type_);
    }
}

/// What has been found after a `@module` spread that passes for itself and is recorded.
pub open spec fn records(
    env: Env,
    scope: Scope,
    before: Progress,
    after: Progress,
    spread: FragmentSpreadView,
    fragment: FragmentView,
    name: Seq<char>,
) -> bool {
    let uses = if before.no_inline.contains_key(spread.fragment.item) {
        before.no_inline[spread.fragment.item]
    } else {
        Seq::empty()
    };
    &&& after.matches == with_record(
        before.matches,
        path_items(scope.path),
        key_at(scope.document, scope.key, scope.aliases),
        fragment.type_condition,
        spread,
        name,
    )
    &&& after.no_inline == (if is_on(env.no_inline_flag, spread.fragment.item) {
        before.no_inline.insert(spread.fragment.item, uses.push(scope.document))
    } else {
        before.no_inline
    })
}

/// Whether the reports gained one error.
pub open spec fn gains(before: Seq<DiagnosticView>, after: Seq<DiagnosticView>, error: DiagnosticView) -> bool {
    after == before.push(error)
}

/// A `@module` spread is accepted exactly if it passes for itself, does not clash with the spreads
/// that were met before, and has a proper `js` field where it needs one; it is then recorded, and
/// nothing is reported. Otherwise it stays, and one error says why. A spread that fails only for its
/// `js` field is recorded all the same.
pub proof fn spread_is_accepted_or_says_why(
    env: Env,
    scope: Scope,
    progress: Progress,
    spread: FragmentSpreadView,
    directive: DirectiveView,
)
    requires
        is_first_directive(spread.directives, "module"@, directive),
    ensures
        match visit_spread(env, scope, progress, spread) {
            None => true,
            Some((found, next)) => if next != SelectionView::FragmentSpread(spread) {
                exists|fragment: FragmentView, argument: ArgumentView, name: Seq<char>|
                    {
                        &&& #[trigger] is_fragment(env.program, spread.fragment.item, fragment)
                        &&& #[trigger] is_first_argument(directive.arguments, "name"@, argument)
                        &&& argument.value.item == #[trigger] literal(name)
                        &&& found.errors == progress.errors
                        &&& passes_first(env, scope.parent_type, spread)
                        &&& needs_fields(env, spread) ==> has_js_type(env.program.schema)
                            && has_proper_js(env.program.schema, fragment.type_condition)
                        &&& !has_directive(fragment.directives, "inline"@)
                        &&& is_free(scope, progress.matches, fragment.type_condition, spread, name)
                        &&& records(env, scope, progress, found, spread, fragment, name)
                    }
            } else {
                exists|error: DiagnosticView| #[trigger]
                    gains(progress.errors, found.errors, error) && says_why(
                        env,
                        scope,
                        progress,
                        found,
                        spread,
                        directive,
                        error,
                    )
            },
        },
{
    directive_is_found(spread.directives, "module"@);
    spread_passes_or_is_rejected(env, scope.parent_type, spread, directive);
    if let Some((found, next)) = visit_spread(env, scope, progress, spread) {
        let request = module_request(env, scope.parent_type, spread, directive)->0;
        match request {
            Err(error) => {
                assert(gains(progress.errors, found.errors, error));
            },
            Ok(request) => {
                let fragment = request.fragment;
                let name = request.module_name;
                let type_ = fragment.type_condition;
                let argument = choose|argument: ArgumentView| #[trigger]
                    is_first_argument(directive.arguments, "name"@, argument) && argument.value.item
                        == literal(name);
                spread_is_recorded_or_clashes(
                    env.program.schema,
                    scope,
                    progress.matches,
                    type_,
                    spread,
                    name,
                );
                js_field_has_to_be_proper(env, fragment, spread);
                fragment_is_found(env.program, spread.fragment.item);
                assert(fragment.name.item == spread.fragment.item);
                let entry = TypeMatchView { fragment: spread.fragment, module_name: name };
                match register(env.program.schema, scope, progress.matches, type_, entry)->0 {
                    Err(error) => {
                        assert(gains(progress.errors, found.errors, error));
                        assert(is_clash(env, scope, progress.matches, spread, fragment, name, error));
                    },
                    Ok(_) => {
                        assert(records(env, scope, progress, found, spread, fragment, name));
                        if next == SelectionView::FragmentSpread(spread) {
                            let error = js_field_args(env.program.schema, fragment, spread)->0->Err_0;
                            assert(gains(progress.errors, found.errors, error));
                        }
                    },
                }
            },
        }
    }
}

/// Whether a spread does not clash with the spreads that were met before.
pub open spec fn is_free(
    scope: Scope,
    matches: MatchMap,
    type_: Type,
    spread: FragmentSpreadView,
    name: Seq<char>,
) -> bool {
    let path = path_items(scope.path);
    let key = key_at(scope.document, scope.key, scope.aliases);
    if matches.contains_key(path) {
        &&& matches[path].key == key
        &&& matches[path].types.contains_key(type_) ==> !clashes(matches[path].types[type_], spread, name)
    } else {
        !is_taken(matches, key)
    }
}

/// Whether an error says how a spread clashes with the spreads that were met before.
pub open spec fn is_clash(
    env: Env,
    scope: Scope,
    matches: MatchMap,
    spread: FragmentSpreadView,
    fragment: FragmentView,
    name: Seq<char>,
    error: DiagnosticView,
) -> bool {
    let path = path_items(scope.path);
    let key = key_at(scope.document, scope.key, scope.aliases);
    let type_ = fragment.type_condition;
    match error.message {
        MessageView::InvalidModuleSelectionWithoutKey { document_name, parent_name } => {
            &&& !matches.contains_key(path)
            &&& is_taken(matches, key)
            &&& scope.path.len() > 0
            &&& document_name == scope.document
            &&& parent_name == scope.path.last().item
            &&& says(error, error.message, scope.path.last().location)
        },
        MessageView::InvalidModuleSelectionMultipleMatches { type_string, alias_path } => {
            &&& matches.contains_key(path)
            &&& matches[path].key == key
            &&& matches[path].types.contains_key(type_)
            &&& clashes(matches[path].types[type_], spread, name)
            &&& is_type_string(env.program.schema, type_, type_string)
            &&& alias_path == dotted(path)
            &&& says_with(
                error,
                error.message,
                spread.fragment.location,
                "related location"@,
                matches[path].types[type_].fragment.location,
            )
        },
        _ => false,
    }
}

/// Whether an error says why a `@module` spread is not accepted, and what was found fits it.
pub open spec fn says_why(
    env: Env,
    scope: Scope,
    before: Progress,
    after: Progress,
    spread: FragmentSpreadView,
    directive: DirectiveView,
    error: DiagnosticView,
) -> bool {
    ||| {
        &&& is_rejected(env, scope.parent_type, spread, directive, error)
        &&& after.matches == before.matches
        &&& after.no_inline == before.no_inline
    }
    ||| exists|fragment: FragmentView, argument: ArgumentView, name: Seq<char>|
        {
            &&& #[trigger] is_fragment(env.program, spread.fragment.item, fragment)
            &&& #[trigger] is_first_argument(directive.arguments, "name"@, argument)
            &&& argument.value.item == #[trigger] literal(name)
            &&& passes_first(env, scope.parent_type, spread)
            &&& needs_fields(env, spread) ==> has_js_type(env.program.schema)
            &&& !has_directive(fragment.directives, "inline"@)
            &&& {
                ||| {
                    &&& is_clash(env, scope, before.matches, spread, fragment, name, error)
                    &&& after.matches == before.matches
                    &&& after.no_inline == before.no_inline
                }
                ||| {
                    &&& needs_fields(env, spread)
                    &&& is_free(scope, before.matches, fragment.type_condition, spread, name)
                    &&& records(env, scope, before, after, spread, fragment, name)
                    &&& is_improper(env, spread, fragment, error)
                }
            }
        }
}

/// Whether an error says how the `js` field of a fragment's type is not a proper one.
pub open spec fn is_improper(
    env: Env,
    spread: FragmentSpreadView,
    fragment: FragmentView,
    error: DiagnosticView,
) -> bool {
    let schema = env.program.schema;
    let type_ = fragment.type_condition;
    &&& says_with(
        error,
        error.message,
        spread.fragment.location,
        "related location"@,
        fragment.name.location,
    )
    &&& match error.message {
        MessageView::InvalidModuleNotOnObject { spread_name, type_string } => {
            &&& !(type_ is Object)
            &&& spread_name == spread.fragment.item
            &&& is_type_string(schema, type_, type_string)
        },
        MessageView::InvalidModuleInvalidSchemaArguments {
            spread_name,
            type_string,
            js_field_name,
            js_field_module_arg,
            js_field_id_arg,
            js_field_type,
        } => {
            &&& type_ is Object
            &&& !has_proper_js(schema, type_)
            &&& spread_name == spread.fragment.item
            &&& is_type_string(schema, type_, type_string)
            &&& js_field_name == "js"@
            &&& js_field_module_arg == "module"@
            &&& js_field_id_arg == "id"@
            &&& js_field_type == "JSDependency"@
        },
        _ => false,
    }
}

/// Nothing comes of a spread only where it leads nowhere, where spreads at its path have another key,
/// or where it stands outside of all fields and its key is taken.
pub proof fn spread_without_result_leads_nowhere(
    env: Env,
    scope: Scope,
    progress: Progress,
    spread: FragmentSpreadView,
)
    requires
        visit_spread(env, scope, progress, spread) is None,
    ensures
        ({
            let path = path_items(scope.path);
            let key = key_at(scope.document, scope.key, scope.aliases);
            let schema = env.program.schema;
            &&& has_directive(spread.directives, "module"@)
            &&& {
                ||| leads_nowhere(env, scope.parent_type, spread)
                ||| progress.matches.contains_key(path) && progress.matches[path].key != key
                ||| !progress.matches.contains_key(path) && is_taken(progress.matches, key)
                    && scope.path.len() == 0
                ||| exists|fragment: FragmentView| #[trigger]
                    is_fragment(env.program, spread.fragment.item, fragment) && {
                        ||| forall|text: Seq<char>| !is_type_string(schema, fragment.type_condition, text)
                        ||| fragment.type_condition matches Type::Object(object) && exists|i: int|
                            0 <= i < schema.objects@[object as int].fields@.len() && (
                            #[trigger] schema.objects@[object as int].fields@[i]) >= schema.fields@.len()
                    }
            }
        }),
{
    directive_is_found(spread.directives, "module"@);
    let directive = first_named(spread.directives, "module"@)->0;
    spread_passes_or_is_rejected(env, scope.parent_type, spread, directive);
    if let Some(Ok(request)) = module_request(env, scope.parent_type, spread, directive) {
        let fragment = request.fragment;
        assert(is_fragment(env.program, spread.fragment.item, fragment));
        spread_is_recorded_or_clashes(
            env.program.schema,
            scope,
            progress.matches,
            fragment.type_condition,
            spread,
            request.module_name,
        );
        js_field_has_to_be_proper(env, fragment, spread);
        type_string_is_found(env.program.schema, fragment.type_condition);
    }
}

} // verus!
