//! What the transform makes of documents.
//!
//! The functions here say, for a selection or a document, what takes its place and what is
//! reported. A result of `None` stands for input that nothing can be made of: a number that the
//! schema does not know, a `@module` spread of a fragment that does not exist, a `@module` spread
//! for Relay Resolvers where no selections can stand, `@module` spreads at one path with
//! different keys, or a `@module` spread outside all fields whose key is taken by another path.

use vstd::prelude::*;

use crate::config::{FeatureFlag, ModuleImportConfig};
use crate::constants::{
    FRAGMENT_ALIAS_DIRECTIVE_NAME, INLINE_DIRECTIVE_LOCATION, INLINE_DIRECTIVE_NAME, IN_MATCH_DIRECTIVE,
    JS_FIELD_BRANCH_ARG, JS_FIELD_ID_ARG, JS_FIELD_MODULE_ARG, JS_FIELD_NAME, JS_FIELD_TYPE, KEY_ARG,
    KEY_SEPARATOR, MATCH_DIRECTIVE_NAME, MODULE_COMPONENT_PREFIX, MODULE_DIRECTIVE_NAME,
    MODULE_OPERATION_PREFIX, NAME_ARG, NORMALIZATION_SUFFIX, PATH_SEPARATOR, RELATED_LOCATION, SUPPORTED_ARG,
};
use crate::diagnostic::{DiagnosticView, MessageView};
use crate::ir::{
    alias_metadata, without, ArgumentView, ConditionView, ConstantValueView, DirectiveView, DocumentNameView,
    FragmentSpreadView, FragmentView, InlineFragmentView, LinkedFieldView, ModuleMetadataView, OperationView,
    ProgramView, ScalarFieldView, SelectionView, ValueView,
};
use crate::location::{Location, WithLocation};
use crate::named::first_named;
use crate::schema::{ArgumentDefinitionView, FieldID, FieldView, Schema, Type, TypeReference};
use crate::text::{extended, joined};

verus! {

/// What stays the same during a run: the documents and what the project asks for.
pub struct Env {
    pub program: ProgramView,
    pub no_inline_flag: FeatureFlag,
    pub branch_args: bool,
    pub imports: ModuleImportConfig,
    pub defer_name: Seq<char>,
}

/// Where in a document a selection stands.
pub struct Scope {
    pub document: DocumentNameView,
    pub parent_type: Type,
    /// The key of the `@match` directive on the closest field, if it has one.
    pub key: Option<Seq<char>>,
    /// The fields and aliased fragments around the selection, from the outermost.
    pub path: Seq<WithLocation<Seq<char>>>,
    /// The aliases of the fragments around the selection, from the outermost.
    pub aliases: Seq<Seq<char>>,
}

/// The `@module` spread that was met first for a type at a path.
pub struct TypeMatchView {
    pub fragment: WithLocation<Seq<char>>,
    pub module_name: Seq<char>,
}

/// The `@module` spreads at a path, with the key that they share.
pub struct MatchesView {
    pub key: Seq<char>,
    pub types: Map<Type, TypeMatchView>,
}

/// The `@module` spreads that were met in a document, by their paths.
pub type MatchMap = Map<Seq<Seq<char>>, MatchesView>;

/// The abstract types that are known to have Relay Resolver models throughout: interfaces that only
/// objects with models implement, and unions of such objects.
#[verifier::ext_equal]
pub struct KnownModels {
    pub interfaces: Set<u32>,
    pub unions: Set<u32>,
}

/// What a run has found so far.
pub struct Progress {
    /// The `@module` spreads of the document at hand.
    pub matches: MatchMap,
    /// The fragments to keep apart, with the documents that use them.
    pub no_inline: Map<Seq<char>, Seq<DocumentNameView>>,
    pub known_models: KnownModels,
    pub errors: Seq<DiagnosticView>,
}

impl Progress {
    /// The same, with one more report.
    pub open spec fn report(self, error: DiagnosticView) -> Progress {
        Progress { errors: self.errors.push(error), ..self }
    }

    /// The same, at the start of a document.
    pub open spec fn fresh(self) -> Progress {
        Progress { matches: Map::empty(), ..self }
    }
}

/// The names along a path.
pub open spec fn path_items(path: Seq<WithLocation<Seq<char>>>) -> Seq<Seq<char>> {
    Seq::new(path.len(), |i: int| path[i].item)
}

impl Scope {
    /// The key of the `@module` spreads that stand here: that of the closest field's `@match` or
    /// else the document's name, followed by the aliases.
    pub open spec fn module_key(self) -> Seq<char> {
        let base = match self.key {
            Some(key) => key,
            None => self.document.text(),
        };
        if self.aliases.len() == 0 {
            base
        } else {
            base + KEY_SEPARATOR@ + joined(self.aliases, KEY_SEPARATOR@)
        }
    }

    /// The identifier of the modules that are loaded here: the document's name and the path.
    pub open spec fn module_id(self) -> Seq<char> {
        extended(self.document.text(), path_items(self.path), PATH_SEPARATOR@)
    }

    /// Where the selections of a field stand.
    pub open spec fn in_field(
        self,
        type_: Type,
        key: Option<Seq<char>>,
        step: WithLocation<Seq<char>>,
    ) -> Scope {
        Scope { parent_type: type_, key, path: self.path.push(step), ..self }
    }

    /// Where the selections of an inline fragment stand.
    pub open spec fn in_fragment(self, fragment: InlineFragmentView) -> Scope {
        let parent_type = match fragment.type_condition {
            Some(type_) => type_,
            None => self.parent_type,
        };
        match alias_metadata(fragment.directives) {
            Some(metadata) => Scope {
                parent_type,
                path: self.path.push(metadata.alias),
                aliases: self.aliases.push(metadata.alias.item),
                ..self
            },
            None => Scope { parent_type, ..self },
        }
    }
}

/// The error that the server's schema does not define the `js` field.
pub open spec fn missing_js_field(location: Location) -> DiagnosticView {
    DiagnosticView::error(
        MessageView::MissingServerSchemaDefinition { name: JS_FIELD_NAME@ },
        location,
    )
}

/// Whether the type of the `js` field is a scalar of the server's schema.
pub open spec fn js_module_type(schema: Schema, location: Location) -> Option<Result<(), DiagnosticView>> {
    match schema.spec_get_type(JS_FIELD_TYPE@) {
        Some(Type::Scalar(id)) => if id >= schema.scalars@.len() {
            None
        } else if schema.scalars@[id as int].is_extension {
            Some(Err(missing_js_field(location)))
        } else {
            Some(Ok(()))
        },
        Some(_) => Some(
            Err(
                DiagnosticView::error(
                    MessageView::InvalidModuleNonScalarJSField { js_field_type: JS_FIELD_TYPE@ },
                    location,
                ),
            ),
        ),
        None => Some(Err(missing_js_field(location))),
    }
}

/// Whether an argument takes a string. An argument that does not exist counts as `if_absent`.
pub open spec fn takes_string(
    schema: Schema,
    argument: Option<ArgumentDefinitionView>,
    if_absent: bool,
) -> bool {
    match argument {
        Some(argument) => match argument.type_.spec_non_list_type() {
            Some(type_) => schema.spec_is_string(type_),
            None => false,
        },
        None => if_absent,
    }
}

/// Whether a field is declared as `js(module: String!, id: String, branch: String): JSDependency`,
/// where `id` and `branch` may be left out.
pub open spec fn is_js_field(schema: Schema, field: FieldView) -> bool {
    &&& schema.spec_get_type(JS_FIELD_TYPE@) == Some(field.type_.spec_inner())
    &&& takes_string(schema, first_named(field.arguments, JS_FIELD_MODULE_ARG@), false)
    &&& takes_string(schema, first_named(field.arguments, JS_FIELD_ID_ARG@), true)
    &&& takes_string(schema, first_named(field.arguments, JS_FIELD_BRANCH_ARG@), true)
}

/// The `js` field of a fragment's type, and whether it takes `id` and `branch`.
pub open spec fn js_field_args(
    schema: Schema,
    fragment: FragmentView,
    spread: FragmentSpreadView,
) -> Option<Result<(FieldID, bool, bool), DiagnosticView>> {
    match fragment.type_condition {
        Type::Object(id) => if id >= schema.objects@.len() {
            None
        } else {
            match schema.spec_field_named(schema.objects@[id as int].fields@, JS_FIELD_NAME@) {
                None => None,
                Some(Some(field_id)) if is_js_field(schema, schema.spec_field(field_id)->0) => Some(
                    Ok(
                        (
                            field_id,
                            first_named(schema.spec_field(field_id)->0.arguments, JS_FIELD_ID_ARG@) is Some,
                            first_named(schema.spec_field(field_id)->0.arguments, JS_FIELD_BRANCH_ARG@) is Some,
                        ),
                    ),
                ),
                Some(_) => match schema.spec_get_type_name(fragment.type_condition) {
                    None => None,
                    Some(type_string) => Some(
                        Err(
                            DiagnosticView::error(
                                MessageView::InvalidModuleInvalidSchemaArguments {
                                    spread_name: spread.fragment.item,
                                    type_string,
                                    js_field_name: JS_FIELD_NAME@,
                                    js_field_module_arg: JS_FIELD_MODULE_ARG@,
                                    js_field_id_arg: JS_FIELD_ID_ARG@,
                                    js_field_type: JS_FIELD_TYPE@,
                                },
                                spread.fragment.location,
                            ).annotate(RELATED_LOCATION@, fragment.name.location),
                        ),
                    ),
                },
            }
        },
        _ => match schema.spec_get_type_name(fragment.type_condition) {
            None => None,
            Some(type_string) => Some(
                Err(
                    DiagnosticView::error(
                        MessageView::InvalidModuleNotOnObject {
                            spread_name: spread.fragment.item,
                            type_string,
                        },
                        spread.fragment.location,
                    ).annotate(RELATED_LOCATION@, fragment.name.location),
                ),
            ),
        },
    }
}

/// Whether every type that selections on `parent_type` can meet is backed by a model.
pub open spec fn parent_type_model(
    schema: Schema,
    parent_type: Type,
    spread: FragmentSpreadView,
) -> Option<Result<bool, DiagnosticView>> {
    match parent_type {
        Type::Interface(id) => if id >= schema.interfaces@.len() {
            None
        } else {
            match schema.spec_all_have_model(schema.interfaces@[id as int].implementing_objects@) {
                None => None,
                Some(true) => Some(Ok(true)),
                Some(false) => Some(
                    Err(
                        DiagnosticView::error(
                            MessageView::MissingRelayResolverModelForInterface {
                                spread_name: spread.fragment.item,
                                parent_interface: schema.interfaces@[id as int].name.item@,
                            },
                            spread.fragment.location,
                        ),
                    ),
                ),
            }
        },
        Type::Union(id) => if id >= schema.unions@.len() {
            None
        } else {
            match schema.spec_all_have_model(schema.unions@[id as int].members@) {
                None => None,
                Some(true) => Some(Ok(true)),
                Some(false) => Some(
                    Err(
                        DiagnosticView::error(
                            MessageView::MissingRelayResolverModelForUnion {
                                spread_name: spread.fragment.item,
                                parent_union: schema.unions@[id as int].name.item@,
                            },
                            spread.fragment.location,
                        ),
                    ),
                ),
            }
        },
        Type::Object(id) => match schema.spec_has_model(id) {
            None => None,
            Some(true) => Some(Ok(true)),
            Some(false) => Some(
                Err(
                    DiagnosticView::error(
                        MessageView::MissingRelayResolverModelForObject {
                            spread_name: spread.fragment.item,
                            object: schema.objects@[id as int].name.item@,
                        },
                        spread.fragment.location,
                    ),
                ),
            ),
        },
        _ => None,
    }
}

/// Whether a spread reads its data from a Relay Resolver model.
pub open spec fn resolver_model(
    program: ProgramView,
    parent_type: Type,
    spread: FragmentSpreadView,
) -> Option<Result<bool, DiagnosticView>> {
    match program.fragment(spread.fragment.item) {
        Some(fragment) => match fragment.type_condition {
            Type::Object(id) => match program.schema.spec_has_model(id) {
                None => None,
                Some(true) => parent_type_model(program.schema, parent_type, spread),
                Some(false) => Some(Ok(false)),
            },
            _ => Some(Ok(false)),
        },
        None => Some(Ok(false)),
    }
}

/// The known models, with one more type if `parent_type` is an abstract one.
pub open spec fn with_model(known: KnownModels, parent_type: Type) -> KnownModels {
    match parent_type {
        Type::Interface(id) => KnownModels { interfaces: known.interfaces.insert(id), ..known },
        Type::Union(id) => KnownModels { unions: known.unions.insert(id), ..known },
        _ => known,
    }
}

/// The known models once the types that selections on `parent_type` can meet were looked at.
pub open spec fn known_after_parent(
    schema: Schema,
    known: KnownModels,
    parent_type: Type,
    spread: FragmentSpreadView,
) -> KnownModels {
    match parent_type_model(schema, parent_type, spread) {
        Some(Ok(_)) => with_model(known, parent_type),
        _ => known,
    }
}

/// The known models once a spread was looked at: a parent type that a spread with a model was
/// accepted on is known from then on.
pub open spec fn known_after_spread(
    program: ProgramView,
    known: KnownModels,
    parent_type: Type,
    spread: FragmentSpreadView,
) -> KnownModels {
    match resolver_model(program, parent_type, spread) {
        Some(Ok(true)) => with_model(known, parent_type),
        _ => known,
    }
}

/// The name that a `@module` directive gives.
pub open spec fn module_name(
    module: DirectiveView,
    spread_location: Location,
) -> Result<Seq<char>, DiagnosticView> {
    match first_named(module.arguments, NAME_ARG@) {
        None => Err(DiagnosticView::error(MessageView::InvalidModuleNoName, spread_location)),
        Some(argument) => match argument.value.item.string_literal() {
            None => Err(
                DiagnosticView::error(MessageView::InvalidModuleNonLiteralName, argument.name.location),
            ),
            Some(name) => Ok(name),
        },
    }
}

/// Whether a directive may stand on a spread beside `@module`.
pub open spec fn allowed_beside_module(env: Env, directive: DirectiveView) -> bool {
    ||| directive.name.item == MODULE_DIRECTIVE_NAME@
    ||| directive.name.item == env.defer_name
    ||| directive.name.item == FRAGMENT_ALIAS_DIRECTIVE_NAME@
}

/// The first directive that may not stand on a spread beside `@module`.
pub open spec fn first_disallowed(env: Env, directives: Seq<DirectiveView>) -> Option<DirectiveView>
    decreases directives.len(),
{
    if directives.len() == 0 {
        None
    } else if !allowed_beside_module(env, directives[0]) {
        Some(directives[0])
    } else {
        first_disallowed(env, directives.drop_first())
    }
}

/// What a `@module` spread asks for.
pub struct ModuleRequest {
    pub fragment: FragmentView,
    pub module_name: Seq<char>,
    pub read_time_resolvers: bool,
    pub needs_js_fields: bool,
    pub no_inline: bool,
}

/// What a `@module` spread asks for, if it may stand as it does.
pub open spec fn module_request(
    env: Env,
    parent_type: Type,
    spread: FragmentSpreadView,
    module: DirectiveView,
) -> Option<Result<ModuleRequest, DiagnosticView>> {
    let no_inline = env.no_inline_flag.spec_is_enabled_for(spread.fragment.item);
    if !no_inline && spread.arguments.len() > 0 {
        Some(
            Err(
                DiagnosticView::error(
                    MessageView::InvalidModuleWithArguments,
                    spread.arguments[0].name.location,
                ),
            ),
        )
    } else {
        match first_disallowed(env, spread.directives) {
            Some(directive) => Some(
                Err(
                    DiagnosticView::error(
                        MessageView::InvalidModuleWithAdditionalDirectives { spread_name: spread.fragment.item },
                        directive.location,
                    ),
                ),
            ),
            None => {
                let model = if env.imports.spec_for_resolvers() {
                    resolver_model(env.program, parent_type, spread)
                } else {
                    Some(Ok(false))
                };
                match model {
                    None => None,
                    Some(Err(error)) => Some(Err(error)),
                    Some(Ok(read_time_resolvers)) => {
                        let needs_js_fields = env.imports.dynamic_module_provider is None || (
                        env.imports.spec_for_resolvers() && !read_time_resolvers);
                        let js_type = if needs_js_fields {
                            js_module_type(env.program.schema, spread.fragment.location)
                        } else {
                            Some(Ok(()))
                        };
                        match js_type {
                            None => None,
                            Some(Err(error)) => Some(Err(error)),
                            Some(Ok(_)) => match env.program.fragment(spread.fragment.item) {
                                None => None,
                                Some(fragment) => match first_named(fragment.directives, INLINE_DIRECTIVE_NAME@) {
                                    Some(inline) => Some(
                                        Err(
                                            DiagnosticView::error(
                                                MessageView::InvalidModuleWithInline,
                                                module.location,
                                            ).annotate(INLINE_DIRECTIVE_LOCATION@, inline.location),
                                        ),
                                    ),
                                    None => match module_name(module, spread.fragment.location) {
                                        Err(error) => Some(Err(error)),
                                        Ok(module_name) => Some(
                                            Ok(
                                                ModuleRequest {
                                                    fragment,
                                                    module_name,
                                                    read_time_resolvers,
                                                    needs_js_fields,
                                                    no_inline,
                                                },
                                            ),
                                        ),
                                    },
                                },
                            },
                        }
                    },
                }
            },
        }
    }
}

/// Whether it is looked at whether a `@module` spread has a model: modules are for Relay Resolvers
/// alone, and neither the arguments nor the directives of the spread are reported before.
pub open spec fn needs_model(env: Env, spread: FragmentSpreadView) -> bool {
    &&& env.imports.spec_for_resolvers()
    &&& env.no_inline_flag.spec_is_enabled_for(spread.fragment.item) || spread.arguments.len() == 0
    &&& first_disallowed(env, spread.directives) is None
}

/// What has been found once a `@module` spread was validated for itself.
pub open spec fn validated(
    env: Env,
    parent_type: Type,
    progress: Progress,
    spread: FragmentSpreadView,
) -> Progress {
    if needs_model(env, spread) {
        Progress {
            known_models: known_after_spread(env.program, progress.known_models, parent_type, spread),
            ..progress
        }
    } else {
        progress
    }
}

/// Whether spreads at any path have the key.
pub open spec fn key_taken(matches: MatchMap, key: Seq<char>) -> bool {
    exists|path: Seq<Seq<char>>| #[trigger] matches.contains_key(path) && matches[path].key == key
}

/// The spreads that were met, with one more, if it may stand beside them: spreads at different
/// paths have different keys, and those for one type at one path agree.
pub open spec fn register(
    schema: Schema,
    scope: Scope,
    matches: MatchMap,
    type_: Type,
    entry: TypeMatchView,
) -> Option<Result<MatchMap, DiagnosticView>> {
    let path = path_items(scope.path);
    let key = scope.module_key();
    if !matches.contains_key(path) {
        if !key_taken(matches, key) {
            Some(Ok(matches.insert(path, MatchesView { key, types: Map::empty().insert(type_, entry) })))
        } else if scope.path.len() == 0 {
            None
        } else {
            Some(
                Err(
                    DiagnosticView::error(
                        MessageView::InvalidModuleSelectionWithoutKey {
                            document_name: scope.document,
                            parent_name: scope.path.last().item,
                        },
                        scope.path.last().location,
                    ),
                ),
            )
        }
    } else {
        let here = matches[path];
        if here.key != key {
            None
        } else if !here.types.contains_key(type_) {
            Some(Ok(matches.insert(path, MatchesView { types: here.types.insert(type_, entry), ..here })))
        } else {
            let previous = here.types[type_];
            if previous.fragment.item == entry.fragment.item && previous.module_name == entry.module_name {
                Some(Ok(matches))
            } else {
                match schema.spec_get_type_name(type_) {
                    None => None,
                    Some(type_string) => Some(
                        Err(
                            DiagnosticView::error(
                                MessageView::InvalidModuleSelectionMultipleMatches {
                                    type_string,
                                    alias_path: joined(path, PATH_SEPARATOR@),
                                },
                                entry.fragment.location,
                            ).annotate(RELATED_LOCATION@, previous.fragment.location),
                        ),
                    ),
                }
            }
        }
    }
}

/// The fragments to keep apart, where one more document uses one of them.
pub open spec fn with_document(
    no_inline: Map<Seq<char>, Seq<DocumentNameView>>,
    fragment: Seq<char>,
    document: DocumentNameView,
) -> Map<Seq<char>, Seq<DocumentNameView>> {
    let documents = if no_inline.contains_key(fragment) {
        no_inline[fragment]
    } else {
        Seq::empty()
    };
    no_inline.insert(fragment, documents.push(document))
}

/// An argument whose value is a string literal.
pub open spec fn string_argument(name: Seq<char>, value: Seq<char>, location: Location) -> ArgumentView {
    ArgumentView {
        name: WithLocation { location, item: name },
        value: WithLocation { location, item: ValueView::Constant(ConstantValueView::String(value)) },
    }
}

/// The arguments of a field that loads `module`.
pub open spec fn js_arguments(
    module: Seq<char>,
    id: Option<Seq<char>>,
    branch: Option<Seq<char>>,
    location: Location,
) -> Seq<ArgumentView> {
    let first = seq![string_argument(JS_FIELD_MODULE_ARG@, module, location)];
    let second = match id {
        Some(id) => first.push(string_argument(JS_FIELD_ID_ARG@, id, location)),
        None => first,
    };
    match branch {
        Some(branch) => second.push(string_argument(JS_FIELD_BRANCH_ARG@, branch, location)),
        None => second,
    }
}

/// A field that loads a module.
pub open spec fn js_field(
    alias: Seq<char>,
    field_id: FieldID,
    arguments: Seq<ArgumentView>,
    location: Location,
) -> SelectionView {
    SelectionView::ScalarField(
        ScalarFieldView {
            alias: Some(WithLocation { location, item: alias }),
            definition: WithLocation { location, item: field_id },
            arguments,
            directives: Seq::empty(),
        },
    )
}

/// The fields that load a spread's normalization file and its component.
pub open spec fn js_fields(
    env: Env,
    key: Seq<char>,
    module_id: Seq<char>,
    module_name: Seq<char>,
    module: DirectiveView,
    fragment: FragmentView,
    spread: FragmentSpreadView,
) -> Option<Result<(SelectionView, SelectionView), DiagnosticView>> {
    match js_field_args(env.program.schema, fragment, spread) {
        None => None,
        Some(Err(error)) => Some(Err(error)),
        Some(Ok((field_id, takes_id, takes_branch))) => {
            let id = if takes_id {
                Some(module_id)
            } else {
                None
            };
            let type_string = env.program.schema.spec_get_type_name(fragment.type_condition);
            if takes_branch && env.branch_args && type_string is None {
                None
            } else {
                let branch = if takes_branch && env.branch_args {
                    type_string
                } else {
                    None
                };
                let normalization_file = spread.fragment.item + NORMALIZATION_SUFFIX@;
                Some(
                    Ok(
                        (
                            js_field(
                                MODULE_OPERATION_PREFIX@ + key,
                                field_id,
                                js_arguments(normalization_file, id, branch, module.name.location),
                                module.name.location,
                            ),
                            js_field(
                                MODULE_COMPONENT_PREFIX@ + key,
                                field_id,
                                js_arguments(module_name, id, branch, module.name.location),
                                module.name.location,
                            ),
                        ),
                    ),
                )
            }
        },
    }
}

/// What takes the place of a `@module` spread: two nested inline fragments on the fragment's
/// type, of which the inner one carries the metadata and holds `selections`.
pub open spec fn module_selection(
    scope: Scope,
    request: ModuleRequest,
    spread: FragmentSpreadView,
    module: DirectiveView,
    selections: Seq<SelectionView>,
) -> SelectionView {
    let metadata = ModuleMetadataView {
        location: module.name.location,
        key: scope.module_key(),
        module_id: scope.module_id(),
        module_name: request.module_name,
        source_document_name: scope.document,
        read_time_resolvers: request.read_time_resolvers,
        fragment_name: spread.fragment.item,
        fragment_source_location: request.fragment.name.location,
        no_inline: request.no_inline,
    };
    SelectionView::InlineFragment(
        InlineFragmentView {
            type_condition: Some(request.fragment.type_condition),
            directives: Seq::empty(),
            selections: seq![
                SelectionView::InlineFragment(
                    InlineFragmentView {
                        type_condition: Some(request.fragment.type_condition),
                        directives: seq![metadata.directive()],
                        selections,
                        spread_location: Location::spec_generated(),
                    },
                ),
            ],
            spread_location: Location::spec_generated(),
        },
    )
}

/// The spread without its `@module` directive.
pub open spec fn plain_spread(spread: FragmentSpreadView) -> SelectionView {
    SelectionView::FragmentSpread(
        FragmentSpreadView { directives: without(spread.directives, MODULE_DIRECTIVE_NAME@), ..spread },
    )
}

/// What comes of a spread that carries `@module`: what was found, and the selection that takes
/// its place, or the error.
pub open spec fn module_spread(
    env: Env,
    scope: Scope,
    progress: Progress,
    spread: FragmentSpreadView,
    module: DirectiveView,
) -> Option<(Progress, Result<SelectionView, DiagnosticView>)> {
    let checked = validated(env, scope.parent_type, progress, spread);
    match module_request(env, scope.parent_type, spread, module) {
        None => None,
        Some(Err(error)) => Some((checked, Err(error))),
        Some(Ok(request)) => {
            let entry = TypeMatchView { fragment: spread.fragment, module_name: request.module_name };
            match register(
                env.program.schema,
                scope,
                progress.matches,
                request.fragment.type_condition,
                entry,
            ) {
                None => None,
                Some(Err(error)) => Some((checked, Err(error))),
                Some(Ok(matches)) => {
                    let noted = Progress {
                        matches,
                        no_inline: if request.no_inline {
                            with_document(
                                progress.no_inline,
                                request.fragment.name.item,
                                scope.document,
                            )
                        } else {
                            progress.no_inline
                        },
                        ..checked
                    };
                    if request.needs_js_fields {
                        match js_fields(
                            env,
                            scope.module_key(),
                            scope.module_id(),
                            request.module_name,
                            module,
                            request.fragment,
                            spread,
                        ) {
                            None => None,
                            Some(Err(error)) => Some((noted, Err(error))),
                            Some(Ok((operation, component))) => Some(
                                (
                                    noted,
                                    Ok(
                                        module_selection(
                                            scope,
                                            request,
                                            spread,
                                            module,
                                            seq![plain_spread(spread), operation, component],
                                        ),
                                    ),
                                ),
                            ),
                        }
                    } else {
                        Some(
                            (
                                noted,
                                Ok(
                                    module_selection(
                                        scope,
                                        request,
                                        spread,
                                        module,
                                        seq![plain_spread(spread)],
                                    ),
                                ),
                            ),
                        )
                    }
                },
            }
        },
    }
}

/// What comes of a spread. One that breaks a rule is reported and stays.
pub open spec fn visit_spread(
    env: Env,
    scope: Scope,
    progress: Progress,
    spread: FragmentSpreadView,
) -> Option<(Progress, SelectionView)> {
    match first_named(spread.directives, MODULE_DIRECTIVE_NAME@) {
        None => Some((progress, SelectionView::FragmentSpread(spread))),
        Some(module) => match module_spread(env, scope, progress, spread, module) {
            None => None,
            Some((found, Ok(selection))) => Some((found, selection)),
            Some((found, Err(error))) => Some(
                (found.report(error), SelectionView::FragmentSpread(spread)),
            ),
        },
    }
}

/// What is reported of a field without selections: a document may not select the `js` field
/// itself, and a schema that has it has to define its type.
pub open spec fn scalar_errors(schema: Schema, field: ScalarFieldView) -> Option<Seq<DiagnosticView>> {
    match schema.spec_field(field.definition.item) {
        None => None,
        Some(definition) => if definition.name.item != JS_FIELD_NAME@ {
            Some(Seq::empty())
        } else {
            match schema.spec_get_type(JS_FIELD_TYPE@) {
                None => Some(seq![missing_js_field(field.definition.location)]),
                Some(type_) => if type_ is Scalar && definition.type_.spec_inner() == type_ {
                    Some(
                        seq![
                            DiagnosticView::error(
                                MessageView::InvalidDirectUseOfJSField { field_name: JS_FIELD_NAME@ },
                                field.definition.location,
                            ),
                        ],
                    )
                } else {
                    Some(Seq::empty())
                },
            }
        },
    }
}

/// The key that a `@match` directive gives, if it gives one. It has to be a string literal that
/// begins with the document's name.
pub open spec fn match_key(
    document: DocumentNameView,
    directive: DirectiveView,
) -> Result<Option<Seq<char>>, DiagnosticView> {
    match first_named(directive.arguments, KEY_ARG@) {
        None => Ok(None),
        Some(argument) => match argument.value.item.string_literal() {
            Some(key) if document.text().is_prefix_of(key) => Ok(Some(key)),
            _ => Err(
                DiagnosticView::error(
                    MessageView::InvalidMatchKeyArgument { document_name: document },
                    argument.value.location,
                ),
            ),
        },
    }
}

/// Whether an argument takes a list of strings.
pub open spec fn takes_string_list(schema: Schema, argument: ArgumentDefinitionView) -> bool {
    match argument.type_.spec_nullable_type() {
        TypeReference::List(of) => match of.spec_nullable_type() {
            TypeReference::Named(type_) => schema.spec_is_string(type_),
            _ => false,
        },
        _ => false,
    }
}

/// The error that a selection under `@match` is no `@module` spread.
pub open spec fn no_module_spread(location: Location, match_location: Location) -> DiagnosticView {
    DiagnosticView::error(
        MessageView::InvalidMatchNotAllSelectionsFragmentSpreadWithModule,
        location,
    ).annotate(IN_MATCH_DIRECTIVE@, match_location)
}

/// The error that an aliased fragment stands under `@match`.
pub open spec fn alias_within_match(match_location: Location, alias_location: Location) -> DiagnosticView {
    DiagnosticView::error(MessageView::InvalidAliasWithinMatch, alias_location).annotate(
        IN_MATCH_DIRECTIVE@,
        match_location,
    )
}

/// What is reported of a selection under `@match`: only `__typename` and `@module` spreads may
/// stand there.
pub open spec fn match_selection_errors(
    schema: Schema,
    directive: DirectiveView,
    selection: SelectionView,
) -> Seq<DiagnosticView> {
    match selection {
        SelectionView::FragmentSpread(spread) => if first_named(
            spread.directives,
            MODULE_DIRECTIVE_NAME@,
        ) is Some {
            Seq::empty()
        } else {
            seq![no_module_spread(spread.fragment.location, directive.name.location)]
        },
        SelectionView::ScalarField(field) => if field.definition.item == schema.typename_field {
            Seq::empty()
        } else {
            seq![no_module_spread(field.definition.location, directive.name.location)]
        },
        SelectionView::LinkedField(field) => seq![no_module_spread(field.definition.location, directive.name.location)],
        SelectionView::InlineFragment(fragment) => match alias_metadata(fragment.directives) {
            Some(metadata) => seq![alias_within_match(directive.name.location, metadata.alias.location)],
            None => seq![no_module_spread(fragment.spread_location, directive.name.location)],
        },
        SelectionView::Condition(condition) => seq![no_module_spread(condition.location, directive.name.location)],
    }
}

/// What is reported of the selections under `@match`.
pub open spec fn match_errors(
    schema: Schema,
    directive: DirectiveView,
    selections: Seq<SelectionView>,
) -> Seq<DiagnosticView>
    decreases selections.len(),
{
    if selections.len() == 0 {
        Seq::empty()
    } else {
        match_errors(schema, directive, selections.drop_last()) + match_selection_errors(
            schema,
            directive,
            selections.last(),
        )
    }
}

/// The items, with one more unless it is among them.
pub open spec fn with_distinct<T>(items: Seq<T>, item: T) -> Seq<T> {
    if items.contains(item) {
        items
    } else {
        items.push(item)
    }
}

/// The types of the fragments that the `@module` spreads among the selections use, each once, in
/// the order in which they come up.
pub open spec fn matched_types(
    program: ProgramView,
    selections: Seq<SelectionView>,
) -> Option<Seq<Type>>
    decreases selections.len(),
{
    if selections.len() == 0 {
        Some(Seq::empty())
    } else {
        match matched_types(program, selections.drop_last()) {
            None => None,
            Some(types) => match selections.last() {
                SelectionView::FragmentSpread(spread) if first_named(
                    spread.directives,
                    MODULE_DIRECTIVE_NAME@,
                ) is Some => match program.fragment(spread.fragment.item) {
                    None => None,
                    Some(fragment) => Some(with_distinct(types, fragment.type_condition)),
                },
                _ => Some(types),
            },
        }
    }
}

/// The names of types, as string literals.
pub open spec fn name_literals(schema: Schema, types: Seq<Type>) -> Option<Seq<ConstantValueView>>
    decreases types.len(),
{
    if types.len() == 0 {
        Some(Seq::empty())
    } else {
        match name_literals(schema, types.drop_last()) {
            None => None,
            Some(names) => match schema.spec_get_type_name(types.last()) {
                None => None,
                Some(name) => Some(names.push(ConstantValueView::String(name))),
            },
        }
    }
}

/// The field that takes the place of a matched one: it lists the supported types and does not
/// carry `@match`.
pub open spec fn matched_field(
    field: LinkedFieldView,
    names: Seq<ConstantValueView>,
    selections: Seq<SelectionView>,
) -> LinkedFieldView {
    LinkedFieldView {
        arguments: field.arguments.push(
            ArgumentView {
                name: WithLocation { location: field.definition.location, item: SUPPORTED_ARG@ },
                value: WithLocation {
                    location: field.definition.location,
                    item: ValueView::Constant(ConstantValueView::List(names)),
                },
            },
        ),
        directives: without(field.directives, MATCH_DIRECTIVE_NAME@),
        selections,
        ..field
    }
}

/// What comes of a field under `@match` once its selections have become `selections`: the reports
/// on its selections, and the field that takes its place, or the error.
pub open spec fn match_field(
    program: ProgramView,
    field: LinkedFieldView,
    definition: FieldView,
    directive: DirectiveView,
    selections: Seq<SelectionView>,
) -> Option<(Seq<DiagnosticView>, Result<LinkedFieldView, DiagnosticView>)> {
    match first_named(definition.arguments, SUPPORTED_ARG@) {
        None => if first_named(directive.arguments, KEY_ARG@) is None {
            Some(
                (
                    Seq::empty(),
                    Err(
                        DiagnosticView::error(
                            MessageView::InvalidMatchWithNoSupportedArgument,
                            directive.location,
                        ),
                    ),
                ),
            )
        } else {
            Some((Seq::empty(), Ok(LinkedFieldView { selections, ..field })))
        },
        Some(supported) => if !takes_string_list(program.schema, supported) {
            Some(
                (
                    Seq::empty(),
                    Err(
                        DiagnosticView::error(
                            MessageView::InvalidMatchNotOnNonNullListString {
                                field_name: definition.name.item,
                            },
                            field.definition.location,
                        ),
                    ),
                ),
            )
        } else if !definition.type_.spec_inner().spec_is_abstract() {
            Some(
                (
                    Seq::empty(),
                    Err(
                        DiagnosticView::error(
                            MessageView::InvalidMatchNotOnUnionOrInterface {
                                field_name: definition.name.item,
                            },
                            field.definition.location,
                        ),
                    ),
                ),
            )
        } else {
            match first_named(field.arguments, SUPPORTED_ARG@) {
                Some(argument) => Some(
                    (
                        Seq::empty(),
                        Err(
                            DiagnosticView::error(
                                MessageView::InvalidMatchNoUserSuppliedSupportedArg {
                                    supported_arg: SUPPORTED_ARG@,
                                },
                                argument.name.location,
                            ),
                        ),
                    ),
                ),
                None => match matched_types(program, field.selections) {
                    None => None,
                    Some(types) => {
                        let errors = match_errors(program.schema, directive, field.selections);
                        if types.len() == 0 {
                            Some(
                                (
                                    errors,
                                    Err(
                                        DiagnosticView::error(
                                            MessageView::InvalidMatchNoModuleSelection,
                                            directive.location,
                                        ),
                                    ),
                                ),
                            )
                        } else {
                            match name_literals(program.schema, types) {
                                None => None,
                                Some(names) => Some((errors, Ok(matched_field(field, names, selections)))),
                            }
                        }
                    },
                },
            }
        },
    }
}

/// Whether a field under `@match` is replaced once its selections have become `selections`: one
/// that lists the supported types is, and one that only gives a key is where one of its selections
/// was. One that is reported stays.
pub open spec fn replaces_matched(
    program: ProgramView,
    field: LinkedFieldView,
    definition: FieldView,
    directive: DirectiveView,
    selections: Seq<SelectionView>,
    selections_replaced: bool,
) -> bool {
    &&& match_field(program, field, definition, directive, selections) matches Some((_, Ok(_)))
    &&& first_named(definition.arguments, SUPPORTED_ARG@) is Some || selections_replaced
}

/// The step that a field adds to the path: its alias, or else its name.
pub open spec fn field_step(field: LinkedFieldView, definition: FieldView) -> WithLocation<Seq<char>> {
    WithLocation {
        location: field.definition.location,
        item: match field.alias {
            Some(alias) => alias.item,
            None => definition.name.item,
        },
    }
}

/// What comes of a selection.
pub open spec fn visit(
    env: Env,
    scope: Scope,
    progress: Progress,
    selection: SelectionView,
) -> Option<(Progress, SelectionView)>
    decreases selection,
{
    match selection {
        SelectionView::FragmentSpread(spread) => visit_spread(env, scope, progress, spread),
        SelectionView::ScalarField(field) => match scalar_errors(env.program.schema, field) {
            None => None,
            Some(errors) => Some((Progress { errors: progress.errors + errors, ..progress }, selection)),
        },
        SelectionView::InlineFragment(fragment) => match visit_all(
            env,
            scope.in_fragment(fragment),
            progress,
            fragment.selections,
        ) {
            None => None,
            Some((found, selections)) => Some(
                (found, SelectionView::InlineFragment(InlineFragmentView { selections, ..fragment })),
            ),
        },
        SelectionView::Condition(condition) => match visit_all(
            env,
            scope,
            progress,
            condition.selections,
        ) {
            None => None,
            Some((found, selections)) => Some(
                (found, SelectionView::Condition(ConditionView { selections, ..condition })),
            ),
        },
        SelectionView::LinkedField(field) => match env.program.schema.spec_field(field.definition.item) {
            None => None,
            Some(definition) => match first_named(field.directives, MATCH_DIRECTIVE_NAME@) {
                None => match visit_all(
                    env,
                    scope.in_field(
                        definition.type_.spec_inner(),
                        None,
                        field_step(field, definition),
                    ),
                    progress,
                    field.selections,
                ) {
                    None => None,
                    Some((found, selections)) => Some(
                        (found, SelectionView::LinkedField(LinkedFieldView { selections, ..field })),
                    ),
                },
                Some(directive) => match match_key(scope.document, directive) {
                    Err(error) => Some((progress.report(error), selection)),
                    Ok(key) => match visit_all(
                        env,
                        scope.in_field(
                            definition.type_.spec_inner(),
                            key,
                            field_step(field, definition),
                        ),
                        progress,
                        field.selections,
                    ) {
                        None => None,
                        Some((found, selections)) => match match_field(
                            env.program,
                            field,
                            definition,
                            directive,
                            selections,
                        ) {
                            None => None,
                            Some((errors, outcome)) => {
                                let reported = Progress { errors: found.errors + errors, ..found };
                                match outcome {
                                    Ok(replacement) => Some(
                                        (reported, SelectionView::LinkedField(replacement)),
                                    ),
                                    Err(error) => Some((reported.report(error), selection)),
                                }
                            },
                        },
                    },
                },
            },
        },
    }
}

/// What comes of selections, one after the other.
pub open spec fn visit_all(
    env: Env,
    scope: Scope,
    progress: Progress,
    selections: Seq<SelectionView>,
) -> Option<(Progress, Seq<SelectionView>)>
    decreases selections,
{
    if selections.len() == 0 {
        Some((progress, Seq::empty()))
    } else {
        match visit(env, scope, progress, selections[0]) {
            None => None,
            Some((found, first)) => match visit_all(env, scope, found, selections.drop_first()) {
                None => None,
                Some((all_found, rest)) => Some((all_found, seq![first] + rest)),
            },
        }
    }
}

/// Whether a selection is replaced. One that is not replaced stays as it is.
pub open spec fn replaces(env: Env, scope: Scope, progress: Progress, selection: SelectionView) -> bool
    decreases selection,
{
    match selection {
        SelectionView::FragmentSpread(spread) => match first_named(
            spread.directives,
            MODULE_DIRECTIVE_NAME@,
        ) {
            None => false,
            Some(module) => module_spread(env, scope, progress, spread, module) matches Some((_, Ok(_))),
        },
        SelectionView::ScalarField(_) => false,
        SelectionView::InlineFragment(fragment) => any_replaces(
            env,
            scope.in_fragment(fragment),
            progress,
            fragment.selections,
        ),
        SelectionView::Condition(condition) => any_replaces(env, scope, progress, condition.selections),
        SelectionView::LinkedField(field) => match env.program.schema.spec_field(field.definition.item) {
            None => false,
            Some(definition) => {
                let type_ = definition.type_.spec_inner();
                let step = field_step(field, definition);
                match first_named(field.directives, MATCH_DIRECTIVE_NAME@) {
                    None => any_replaces(
                        env,
                        scope.in_field(type_, None, step),
                        progress,
                        field.selections,
                    ),
                    Some(directive) => match match_key(scope.document, directive) {
                        Err(_) => false,
                        Ok(key) => {
                            let inner = scope.in_field(type_, key, step);
                            match visit_all(env, inner, progress, field.selections) {
                                None => false,
                                Some((_, selections)) => replaces_matched(
                                    env.program,
                                    field,
                                    definition,
                                    directive,
                                    selections,
                                    any_replaces(env, inner, progress, field.selections),
                                ),
                            }
                        },
                    },
                }
            },
        },
    }
}

/// Whether one of the selections is replaced.
pub open spec fn any_replaces(
    env: Env,
    scope: Scope,
    progress: Progress,
    selections: Seq<SelectionView>,
) -> bool
    decreases selections,
{
    if selections.len() == 0 {
        false
    } else {
        ||| replaces(env, scope, progress, selections[0])
        ||| visit(env, scope, progress, selections[0]) matches Some((found, _)) && any_replaces(
            env,
            scope,
            found,
            selections.drop_first(),
        )
    }
}

/// Where the selections of a document stand.
pub open spec fn document_scope(document: DocumentNameView, type_: Type) -> Scope {
    Scope { document, parent_type: type_, key: None, path: Seq::empty(), aliases: Seq::empty() }
}

/// Where the selections of an operation stand.
pub open spec fn operation_scope(operation: OperationView) -> Scope {
    document_scope(DocumentNameView::Operation(operation.name.item), operation.type_)
}

/// Where the selections of a fragment stand.
pub open spec fn fragment_scope(fragment: FragmentView) -> Scope {
    document_scope(DocumentNameView::Fragment(fragment.name.item), fragment.type_condition)
}

/// What comes of an operation.
pub open spec fn visit_operation(
    env: Env,
    progress: Progress,
    operation: OperationView,
) -> Option<(Progress, OperationView)> {
    match visit_all(
        env,
        operation_scope(operation),
        progress.fresh(),
        operation.selections,
    ) {
        None => None,
        Some((found, selections)) => Some((found, OperationView { selections, ..operation })),
    }
}

/// What comes of a fragment.
pub open spec fn visit_fragment(
    env: Env,
    progress: Progress,
    fragment: FragmentView,
) -> Option<(Progress, FragmentView)> {
    match visit_all(
        env,
        fragment_scope(fragment),
        progress.fresh(),
        fragment.selections,
    ) {
        None => None,
        Some((found, selections)) => Some((found, FragmentView { selections, ..fragment })),
    }
}

/// What comes of operations, one after the other.
pub open spec fn visit_operations(
    env: Env,
    progress: Progress,
    operations: Seq<OperationView>,
) -> Option<(Progress, Seq<OperationView>)>
    decreases operations.len(),
{
    if operations.len() == 0 {
        Some((progress, Seq::empty()))
    } else {
        match visit_operation(env, progress, operations[0]) {
            None => None,
            Some((found, first)) => match visit_operations(env, found, operations.drop_first()) {
                None => None,
                Some((all_found, rest)) => Some((all_found, seq![first] + rest)),
            },
        }
    }
}

/// What comes of fragments, one after the other.
pub open spec fn visit_fragments(
    env: Env,
    progress: Progress,
    fragments: Seq<FragmentView>,
) -> Option<(Progress, Seq<FragmentView>)>
    decreases fragments.len(),
{
    if fragments.len() == 0 {
        Some((progress, Seq::empty()))
    } else {
        match visit_fragment(env, progress, fragments[0]) {
            None => None,
            Some((found, first)) => match visit_fragments(env, found, fragments.drop_first()) {
                None => None,
                Some((all_found, rest)) => Some((all_found, seq![first] + rest)),
            },
        }
    }
}

/// Whether one of the operations is replaced.
pub open spec fn any_operation_replaces(
    env: Env,
    progress: Progress,
    operations: Seq<OperationView>,
) -> bool
    decreases operations.len(),
{
    if operations.len() == 0 {
        false
    } else {
        ||| any_replaces(env, operation_scope(operations[0]), progress.fresh(), operations[0].selections)
        ||| visit_operation(env, progress, operations[0]) matches Some((found, _)) && any_operation_replaces(
            env,
            found,
            operations.drop_first(),
        )
    }
}

/// Whether one of the fragments is replaced.
pub open spec fn any_fragment_replaces(env: Env, progress: Progress, fragments: Seq<FragmentView>) -> bool
    decreases fragments.len(),
{
    if fragments.len() == 0 {
        false
    } else {
        ||| any_replaces(env, fragment_scope(fragments[0]), progress.fresh(), fragments[0].selections)
        ||| visit_fragment(env, progress, fragments[0]) matches Some((found, _)) && any_fragment_replaces(
            env,
            found,
            fragments.drop_first(),
        )
    }
}

/// Whether one of the documents is replaced.
pub open spec fn any_document_replaces(env: Env, progress: Progress) -> bool {
    ||| any_operation_replaces(env, progress, env.program.operations)
    ||| visit_operations(env, progress, env.program.operations) matches Some((found, _))
        && any_fragment_replaces(env, found, env.program.fragments)
}

/// Where a run stands after operations: at the last of them, or where it stood before.
pub open spec fn scope_after_operations(scope: Scope, operations: Seq<OperationView>) -> Scope {
    if operations.len() == 0 {
        scope
    } else {
        operation_scope(operations.last())
    }
}

/// Where a run stands after fragments: at the last of them, or where it stood before.
pub open spec fn scope_after_fragments(scope: Scope, fragments: Seq<FragmentView>) -> Scope {
    if fragments.len() == 0 {
        scope
    } else {
        fragment_scope(fragments.last())
    }
}

/// What has been found before a run.
pub open spec fn nothing_found() -> Progress {
    Progress {
        matches: Map::empty(),
        no_inline: Map::empty(),
        known_models: KnownModels { interfaces: Set::empty(), unions: Set::empty() },
        errors: Seq::empty(),
    }
}

/// What comes of all documents: first of the operations, then of the fragments.
pub open spec fn visit_program(env: Env, progress: Progress) -> Option<(Progress, ProgramView)> {
    match visit_operations(env, progress, env.program.operations) {
        None => None,
        Some((found, operations)) => match visit_fragments(env, found, env.program.fragments) {
            None => None,
            Some((all_found, fragments)) => Some(
                (all_found, ProgramView { operations, fragments, ..env.program }),
            ),
        },
    }
}

} // verus!
