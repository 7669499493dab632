//! Spreads with `@module`, and the `js` field that loads modules.

use std::sync::Arc;

use vstd::prelude::*;

use crate::constants::{
    FRAGMENT_ALIAS_DIRECTIVE_NAME, INLINE_DIRECTIVE_LOCATION, INLINE_DIRECTIVE_NAME,
    JS_FIELD_BRANCH_ARG, JS_FIELD_ID_ARG, JS_FIELD_MODULE_ARG, JS_FIELD_NAME, JS_FIELD_TYPE,
    KEY_SEPARATOR, MODULE_COMPONENT_PREFIX, MODULE_DIRECTIVE_NAME, MODULE_OPERATION_PREFIX,
    NAME_ARG, NORMALIZATION_SUFFIX, PATH_SEPARATOR, RELATED_LOCATION,
};
use crate::diagnostic::{Diagnostic, DiagnosticView, ValidationMessage};
use crate::ir::{
    copy_arguments, copy_without, selections_view, Argument, ConstantValue, Directive,
    FragmentDefinition, FragmentSpread, InlineFragment, InlineFragmentView, ModuleMetadata,
    ScalarField, Selection, SelectionView, Value,
};
use crate::location::{copy_text, Location, WithLocation};
use crate::model::{
    first_disallowed, js_arguments, js_field, js_field_args, js_fields, js_module_type,
    known_after_parent, known_after_spread, module_name, module_request, module_spread,
    parent_type_model, path_items, plain_spread, register, replaces, resolver_model, scalar_errors,
    string_argument, takes_string, validated, visit_spread, ModuleRequest, Progress, TypeMatchView,
};
use crate::named::{first_named, named};
use crate::schema::{ArgumentDefinition, FieldID, Schema, Type};
use crate::tables::TypeMatch;
use crate::text::{extend, glued, join, opt_view, reads, views};
use crate::transform::{outcome, MatchTransform, Transformed};

verus! {

/// Whether a computed result agrees with a modelled one.
pub open spec fn agrees<T>(
    result: Option<Result<T, Diagnostic>>,
    modelled: Option<Result<T, DiagnosticView>>,
) -> bool {
    match result {
        None => modelled is None,
        Some(Ok(value)) => modelled == Some(Ok::<T, DiagnosticView>(value)),
        Some(Err(error)) => modelled == Some(Err::<T, DiagnosticView>(error@)),
    }
}

impl<'program, 'flag> MatchTransform<'program, 'flag> {
    /// Validates that `JSDependency` is a server scalar type in the schema.
    fn validate_js_module_type(&self, spread_location: Location) -> (result: Option<Result<(), Diagnostic>>)
        ensures
            agrees(result, js_module_type(self.env().program.schema, spread_location)),
    {
        let schema: &Schema = &self.program.schema;
        match schema.get_type(JS_FIELD_TYPE) {
            Some(js_module_type) => match js_module_type {
                Type::Scalar(id) => {
                    if (id as usize) >= schema.scalars.len() {
                        None
                    } else if schema.scalars[id as usize].is_extension {
                        Some(
                            Err(
                                Diagnostic::error(
                                    ValidationMessage::MissingServerSchemaDefinition {
                                        name: JS_FIELD_NAME.to_owned(),
                                    },
                                    spread_location,
                                ),
                            ),
                        )
                    } else {
                        Some(Ok(()))
                    }
                },
                _ => Some(
                    Err(
                        Diagnostic::error(
                            ValidationMessage::InvalidModuleNonScalarJSField {
                                js_field_type: JS_FIELD_TYPE.to_owned(),
                            },
                            spread_location,
                        ),
                    ),
                ),
            },
            None => Some(
                Err(
                    Diagnostic::error(
                        ValidationMessage::MissingServerSchemaDefinition { name: JS_FIELD_NAME.to_owned() },
                        spread_location,
                    ),
                ),
            ),
        }
    }

    /// Gets and validates the `js(module: String!, id: String): JSDependency` field in the object
    /// that a fragment is on.
    fn get_js_field_args(
        &self,
        fragment: &FragmentDefinition,
        spread: &FragmentSpread,
    ) -> (result: Option<Result<(FieldID, bool, bool), Diagnostic>>)
        ensures
            agrees(result, js_field_args(self.env().program.schema, fragment@, spread@)),
    {
        let schema: &Schema = &self.program.schema;
        match fragment.type_condition {
            Type::Object(id) => {
                if (id as usize) >= schema.objects.len() {
                    return None;
                }
                let js_field_id = schema.field_named(&schema.objects[id as usize].fields, JS_FIELD_NAME)?;
                if let Some(js_field_id) = js_field_id {
                    let js_field = schema.field(js_field_id)?;
                    let module_arg = named(&js_field.arguments, JS_FIELD_MODULE_ARG);
                    let id_arg = named(&js_field.arguments, JS_FIELD_ID_ARG);
                    let branch_arg = named(&js_field.arguments, JS_FIELD_BRANCH_ARG);
                    let is_js_type = match schema.get_type(JS_FIELD_TYPE) {
                        Some(js_module_type) => js_field.type_.inner() == js_module_type,
                        None => false,
                    };
                    if is_js_type && is_string_argument(schema, module_arg, false) && is_string_argument(
                        schema,
                        id_arg,
                        true,
                    ) && is_string_argument(schema, branch_arg, true) {
                        return Some(Ok((js_field_id, id_arg.is_some(), branch_arg.is_some())));
                    }
                }
                let type_string = schema.get_type_name(fragment.type_condition)?;
                Some(
                    Err(
                        Diagnostic::error(
                            ValidationMessage::InvalidModuleInvalidSchemaArguments {
                                spread_name: spread.fragment.item.clone(),
                                type_string: type_string.clone(),
                                js_field_name: JS_FIELD_NAME.to_owned(),
                                js_field_module_arg: JS_FIELD_MODULE_ARG.to_owned(),
                                js_field_id_arg: JS_FIELD_ID_ARG.to_owned(),
                                js_field_type: JS_FIELD_TYPE.to_owned(),
                            },
                            spread.fragment.location,
                        ).annotate(RELATED_LOCATION, fragment.name.location),
                    ),
                )
            },
            // @module should only be used on objects.
            _ => {
                let type_string = schema.get_type_name(fragment.type_condition)?;
                Some(
                    Err(
                        Diagnostic::error(
                            ValidationMessage::InvalidModuleNotOnObject {
                                spread_name: spread.fragment.item.clone(),
                                type_string: type_string.clone(),
                            },
                            spread.fragment.location,
                        ).annotate(RELATED_LOCATION, fragment.name.location),
                    ),
                )
            },
        }
    }
}

/// The arguments of a field that loads `module`.
fn build_js_arguments(
    module: &String,
    id: &Option<String>,
    branch: &Option<String>,
    location: Location,
) -> (arguments: Vec<Argument>)
    ensures
        views(arguments@) == js_arguments(module@, opt_view(*id), opt_view(*branch), location),
{
    let mut arguments: Vec<Argument> = Vec::new();
    arguments.push(build_string_literal_argument(JS_FIELD_MODULE_ARG, module, location));
    let ghost first = seq![string_argument(JS_FIELD_MODULE_ARG@, module@, location)];
    assert(views(arguments@) =~= first);
    let ghost mut so_far = first;
    if let Some(id) = id {
        arguments.push(build_string_literal_argument(JS_FIELD_ID_ARG, id, location));
        proof {
            so_far = first.push(string_argument(JS_FIELD_ID_ARG@, id@, location));
        }
        assert(views(arguments@) =~= so_far);
    }
    if let Some(branch) = branch {
        arguments.push(build_string_literal_argument(JS_FIELD_BRANCH_ARG, branch, location));
        assert(views(arguments@) =~= so_far.push(
            string_argument(JS_FIELD_BRANCH_ARG@, branch@, location),
        ));
    }
    arguments
}

/// A field that loads a module.
fn build_js_field(alias: String, field_id: FieldID, arguments: Vec<Argument>, location: Location) -> (selection:
    Selection)
    ensures
        selection@ == js_field(alias@, field_id, views(arguments@), location),
{
    let field = ScalarField {
        alias: Some(WithLocation::new(location, alias)),
        definition: WithLocation::new(location, field_id),
        arguments,
        directives: Vec::new(),
    };
    assert(field@.directives =~= Seq::empty());
    Selection::ScalarField(Arc::new(field))
}

impl<'program, 'flag> MatchTransform<'program, 'flag> {
    /// Builds the fields that load a spread's normalization file and its component.
    fn generate_js_fields(
        &self,
        match_directive_key_argument: &String,
        module_id: &String,
        module_directive_name_argument: &String,
        module_directive: &Directive,
        fragment: &FragmentDefinition,
        spread: &FragmentSpread,
    ) -> (result: Option<Result<(Selection, Selection), Diagnostic>>)
        ensures
            match result {
                None => js_fields(
                    self.env(),
                    match_directive_key_argument@,
                    module_id@,
                    module_directive_name_argument@,
                    module_directive@,
                    fragment@,
                    spread@,
                ) is None,
                Some(Ok((operation, component))) => js_fields(
                    self.env(),
                    match_directive_key_argument@,
                    module_id@,
                    module_directive_name_argument@,
                    module_directive@,
                    fragment@,
                    spread@,
                ) == Some(Ok::<(SelectionView, SelectionView), DiagnosticView>((operation@, component@))),
                Some(Err(error)) => js_fields(
                    self.env(),
                    match_directive_key_argument@,
                    module_id@,
                    module_directive_name_argument@,
                    module_directive@,
                    fragment@,
                    spread@,
                ) == Some(Err::<(SelectionView, SelectionView), DiagnosticView>(error@)),
            },
    {
        let (js_field_id, has_js_field_id_arg, has_js_field_branch_arg) = match self.get_js_field_args(
            fragment,
            spread,
        )? {
            Ok(args) => args,
            Err(error) => {
                return Some(Err(error));
            },
        };
        let location = module_directive.name.location;
        let id: Option<String> = if has_js_field_id_arg {
            Some(module_id.clone())
        } else {
            None
        };
        let branch: Option<String> = if has_js_field_branch_arg && self.enable_3d_branch_arg_generation {
            Some(self.program.schema.get_type_name(fragment.type_condition)?.clone())
        } else {
            None
        };
        let normalization_name = glued(spread.fragment.item.as_str(), NORMALIZATION_SUFFIX);
        let operation_field = build_js_field(
            glued(MODULE_OPERATION_PREFIX, match_directive_key_argument.as_str()),
            js_field_id,
            build_js_arguments(&normalization_name, &id, &branch, location),
            location,
        );
        let component_field = build_js_field(
            glued(MODULE_COMPONENT_PREFIX, match_directive_key_argument.as_str()),
            js_field_id,
            build_js_arguments(module_directive_name_argument, &id, &branch, location),
            location,
        );
        Some(Ok((operation_field, component_field)))
    }

    /// Validates that every type that the selections at hand can meet is backed by a Relay
    /// Resolver model.
    fn validate_parent_type_of_fragment_with_read_time_resolver(
        &mut self,
        spread: &FragmentSpread,
    ) -> (result: Option<Result<bool, Diagnostic>>)
        requires
            old(self).inv(),
        ensures
            agrees(
                result,
                parent_type_model(old(self).env().program.schema, old(self).scope().parent_type, spread@),
            ),
            final(self).inv(),
            final(self).env() == old(self).env(),
            final(self).scope() == old(self).scope(),
            final(self).progress() == (Progress {
                known_models: known_after_parent(
                    old(self).env().program.schema,
                    old(self).progress().known_models,
                    old(self).scope().parent_type,
                    spread@,
                ),
                ..old(self).progress()
            }),
    {
        broadcast use vstd::std_specs::hash::group_hash_axioms;

        let program = self.program;
        let schema: &Schema = &program.schema;
        match self.parent_type {
            Type::Interface(id) => {
                if self.relay_resolver_model_interfaces.contains(&id) {
                    assert(self.relay_resolver_model_interfaces@.insert(id)
                        =~= self.relay_resolver_model_interfaces@);
                    return Some(Ok(true));
                }
                if (id as usize) >= schema.interfaces.len() {
                    return None;
                }
                let parent_interface = &schema.interfaces[id as usize];
                let all_have_read_time_resolvers = match schema.all_have_model(
                    &parent_interface.implementing_objects,
                ) {
                    Some(yes) => yes,
                    None => {
                        return None;
                    },
                };
                if !all_have_read_time_resolvers {
                    return Some(
                        Err(
                            Diagnostic::error(
                                ValidationMessage::MissingRelayResolverModelForInterface {
                                    spread_name: spread.fragment.item.clone(),
                                    parent_interface: parent_interface.name.item.clone(),
                                },
                                spread.fragment.location,
                            ),
                        ),
                    );
                }
                self.relay_resolver_model_interfaces.insert(id);
            },
            Type::Union(id) => {
                if self.relay_resolver_model_unions.contains(&id) {
                    assert(self.relay_resolver_model_unions@.insert(id)
                        =~= self.relay_resolver_model_unions@);
                    return Some(Ok(true));
                }
                if (id as usize) >= schema.unions.len() {
                    return None;
                }
                let parent_union = &schema.unions[id as usize];
                let all_have_read_time_resolvers = match schema.all_have_model(&parent_union.members) {
                    Some(yes) => yes,
                    None => {
                        return None;
                    },
                };
                if !all_have_read_time_resolvers {
                    return Some(
                        Err(
                            Diagnostic::error(
                                ValidationMessage::MissingRelayResolverModelForUnion {
                                    spread_name: spread.fragment.item.clone(),
                                    parent_union: parent_union.name.item.clone(),
                                },
                                spread.fragment.location,
                            ),
                        ),
                    );
                }
                self.relay_resolver_model_unions.insert(id);
            },
            Type::Object(id) => {
                let has_read_time_resolver = match schema.has_model(id) {
                    Some(yes) => yes,
                    None => {
                        return None;
                    },
                };
                if !has_read_time_resolver {
                    return Some(
                        Err(
                            Diagnostic::error(
                                ValidationMessage::MissingRelayResolverModelForObject {
                                    spread_name: spread.fragment.item.clone(),
                                    object: schema.objects[id as usize].name.item.clone(),
                                },
                                spread.fragment.location,
                            ),
                        ),
                    );
                }
            },
            // No selections can stand on the other types.
            _ => {
                return None;
            },
        }
        Some(Ok(true))
    }

    /// Whether a spread reads its data from a Relay Resolver model.
    fn has_relay_resolver_model(&mut self, spread: &FragmentSpread) -> (result: Option<
        Result<bool, Diagnostic>,
    >)
        requires
            old(self).inv(),
        ensures
            agrees(
                result,
                resolver_model(old(self).env().program, old(self).scope().parent_type, spread@),
            ),
            final(self).inv(),
            final(self).env() == old(self).env(),
            final(self).scope() == old(self).scope(),
            final(self).progress() == (Progress {
                known_models: known_after_spread(
                    old(self).env().program,
                    old(self).progress().known_models,
                    old(self).scope().parent_type,
                    spread@,
                ),
                ..old(self).progress()
            }),
    {
        let program = self.program;
        if let Some(fragment) = program.fragment(spread.fragment.item.as_str()) {
            if let Type::Object(object_id) = fragment.type_condition {
                match program.schema.has_model(object_id) {
                    None => {
                        return None;
                    },
                    Some(yes) => {
                        if yes {
                            return self.validate_parent_type_of_fragment_with_read_time_resolver(spread);
                        }
                    },
                }
            }
        }
        Some(Ok(false))
    }
}

/// What a `@module` spread asks for.
struct ModuleUse<'program> {
    fragment: &'program FragmentDefinition,
    module_directive_name_argument: String,
    uses_read_time_resolvers: bool,
    needs_js_fields: bool,
    should_use_no_inline: bool,
}

impl<'program> View for ModuleUse<'program> {
    type V = ModuleRequest;

    closed spec fn view(&self) -> ModuleRequest {
        ModuleRequest {
            fragment: self.fragment@,
            module_name: self.module_directive_name_argument@,
            read_time_resolvers: self.uses_read_time_resolvers,
            needs_js_fields: self.needs_js_fields,
            no_inline: self.should_use_no_inline,
        }
    }
}

/// The names along a path.
fn path_names(path: &Vec<WithLocation<String>>) -> (names: Vec<String>)
    ensures
        views(names@) == path_items(views(path@)),
{
    let mut names: Vec<String> = Vec::new();
    let mut i: usize = 0;
    while i < path.len()
        invariant
            i <= path.len(),
            views(names@) =~= path_items(views(path@)).take(i as int),
        decreases path.len() - i,
    {
        let ghost before = names@;
        names.push(path[i].item.clone());
        proof {
            assert(views(names@) =~= views(before).push(path@[i as int].item@));
            assert(path_items(views(path@))[i as int] == path@[i as int].item@);
        }
        i = i + 1;
    }
    names
}

impl<'program, 'flag> MatchTransform<'program, 'flag> {
    /// The key of the `@module` spreads at hand.
    fn module_key(&self) -> (key: String)
        ensures
            key@ == self.scope().module_key(),
    {
        let base = match &self.match_directive_key_argument {
            Some(key) => key.clone(),
            None => self.document_name.lookup().clone(),
        };
        if self.alias_path.len() == 0 {
            base
        } else {
            let alias_path = join(&self.alias_path, KEY_SEPARATOR);
            glued(base.as_str(), KEY_SEPARATOR).concat(alias_path.as_str())
        }
    }

    /// The identifier of the modules that are loaded at hand.
    fn module_id(&self) -> (id: String)
        ensures
            id@ == self.scope().module_id(),
    {
        extend(self.document_name.lookup().as_str(), &path_names(&self.path), PATH_SEPARATOR)
    }

    /// Finds the first directive that may not stand on a spread beside `@module`.
    fn find_invalid_directive<'a>(&self, directives: &'a Vec<Directive>) -> (found: Option<&'a Directive>)
        ensures
            match found {
                Some(directive) => first_disallowed(self.env(), views(directives@)) == Some(directive@),
                None => first_disallowed(self.env(), views(directives@)) is None,
            },
    {
        let mut i: usize = 0;
        assert(views(directives@).skip(0) =~= views(directives@));
        while i < directives.len()
            invariant
                i <= directives.len(),
                first_disallowed(self.env(), views(directives@)) == first_disallowed(
                    self.env(),
                    views(directives@).skip(i as int),
                ),
            decreases directives.len() - i,
        {
            proof {
                let rest = views(directives@).skip(i as int);
                assert(rest[0] == directives@[i as int]@);
                assert(rest.drop_first() =~= views(directives@).skip(i + 1));
            }
            // @defer may stand beside @module, and so may @alias, which moves to an inline
            // fragment of its own in a later transform.
            let name = &directives[i].name.item;
            if !reads(name, MODULE_DIRECTIVE_NAME) && *name != self.defer_stream_interface.defer_name && !reads(
                name,
                FRAGMENT_ALIAS_DIRECTIVE_NAME,
            ) {
                return Some(&directives[i]);
            }
            i = i + 1;
        }
        None
    }

    /// Validates a `@module` spread for itself, and finds what it asks for.
    fn validate_module_spread(
        &mut self,
        spread: &FragmentSpread,
        module_directive: &Directive,
    ) -> (result: Option<Result<ModuleUse<'program>, Diagnostic>>)
        requires
            old(self).inv(),
        ensures
            match result {
                None => module_request(
                    old(self).env(),
                    old(self).scope().parent_type,
                    spread@,
                    module_directive@,
                ) is None,
                Some(Ok(request)) => module_request(
                    old(self).env(),
                    old(self).scope().parent_type,
                    spread@,
                    module_directive@,
                ) == Some(Ok::<ModuleRequest, DiagnosticView>(request@)),
                Some(Err(error)) => module_request(
                    old(self).env(),
                    old(self).scope().parent_type,
                    spread@,
                    module_directive@,
                ) == Some(Err::<ModuleRequest, DiagnosticView>(error@)),
            },
            final(self).inv(),
            final(self).env() == old(self).env(),
            final(self).scope() == old(self).scope(),
            final(self).progress() == validated(
                old(self).env(),
                old(self).scope().parent_type,
                old(self).progress(),
                spread@,
            ),
    {
        let should_use_no_inline = self.no_inline_flag.is_enabled_for(&spread.fragment.item);
        // @arguments on the fragment spread is not allowed without @no_inline.
        if !should_use_no_inline && spread.arguments.len() > 0 {
            return Some(
                Err(
                    Diagnostic::error(
                        ValidationMessage::InvalidModuleWithArguments,
                        spread.arguments[0].name.location,
                    ),
                ),
            );
        }
        // No other directives are allowed.
        if let Some(invalid_directive) = self.find_invalid_directive(&spread.directives) {
            return Some(
                Err(
                    Diagnostic::error(
                        ValidationMessage::InvalidModuleWithAdditionalDirectives {
                            spread_name: spread.fragment.item.clone(),
                        },
                        invalid_directive.location,
                    ),
                ),
            );
        }
        let uses_read_time_resolvers = if self.module_import_config.for_resolvers() {
            match self.has_relay_resolver_model(spread) {
                None => {
                    return None;
                },
                Some(Err(error)) => {
                    return Some(Err(error));
                },
                Some(Ok(yes)) => yes,
            }
        } else {
            false
        };
        let needs_js_fields = self.module_import_config.dynamic_module_provider.is_none() || (
        self.module_import_config.for_resolvers() && !uses_read_time_resolvers);
        if needs_js_fields {
            match self.validate_js_module_type(spread.fragment.location) {
                None => {
                    return None;
                },
                Some(Err(error)) => {
                    return Some(Err(error));
                },
                Some(Ok(_)) => {},
            }
        }
        let program = self.program;
        let fragment = match program.fragment(spread.fragment.item.as_str()) {
            Some(fragment) => fragment,
            None => {
                return None;
            },
        };
        // Disallow @inline on fragments whose spreads are decorated with @module.
        if let Some(inline_data_directive) = named(&fragment.directives, INLINE_DIRECTIVE_NAME) {
            return Some(
                Err(
                    Diagnostic::error(
                        ValidationMessage::InvalidModuleWithInline,
                        module_directive.location,
                    ).annotate(INLINE_DIRECTIVE_LOCATION, inline_data_directive.location),
                ),
            );
        }
        match get_module_directive_name_argument(module_directive, spread.fragment.location) {
            Err(error) => Some(Err(error)),
            Ok(module_directive_name_argument) => Some(
                Ok(
                    ModuleUse {
                        fragment,
                        module_directive_name_argument,
                        uses_read_time_resolvers,
                        needs_js_fields,
                        should_use_no_inline,
                    },
                ),
            ),
        }
    }

    /// Validates a `@module` spread against those that were met before, and keeps track of it.
    ///
    /// All spreads with a given key occur at a single path. Those at one path whose fragments are
    /// on one type are the same: they spread the same fragment and name the same module, because
    /// the server could return the payload of one of them only.
    fn validate_module_matches(
        &mut self,
        type_condition: Type,
        fragment: &WithLocation<String>,
        module_directive_name_argument: &String,
        match_directive_key_argument: &String,
    ) -> (result: Option<Result<(), Diagnostic>>)
        requires
            old(self).inv(),
            match_directive_key_argument@ == old(self).scope().module_key(),
        ensures
            final(self).env() == old(self).env(),
            final(self).scope() == old(self).scope(),
            result is Some ==> final(self).inv(),
            ({
                let registered = register(
                    old(self).env().program.schema,
                    old(self).scope(),
                    old(self).progress().matches,
                    type_condition,
                    TypeMatchView {
                        fragment: fragment@,
                        module_name: module_directive_name_argument@,
                    },
                );
                match result {
                    None => registered is None,
                    Some(Ok(_)) => {
                        &&& registered is Some
                        &&& registered->0 is Ok
                        &&& final(self).progress() == (Progress {
                            matches: registered->0->Ok_0,
                            ..old(self).progress()
                        })
                    },
                    Some(Err(error)) => {
                        &&& registered is Some
                        &&& registered->0 is Err
                        &&& registered->0->Err_0 == error@
                        &&& final(self).progress() == old(self).progress()
                    },
                }
            }),
    {
        let path = path_names(&self.path);
        if !self.matches_for_path.contains(&path) {
            if self.matches_for_path.any_has_key(match_directive_key_argument) {
                if self.path.len() == 0 {
                    return None;
                }
                let parent = &self.path[self.path.len() - 1];
                assert(parent@ == self.scope().path.last());
                return Some(
                    Err(
                        Diagnostic::error(
                            ValidationMessage::InvalidModuleSelectionWithoutKey {
                                document_name: self.document_name.clone(),
                                parent_name: parent.item.clone(),
                            },
                            parent.location,
                        ),
                    ),
                );
            }
            let path_copy: Vec<String> = path.clone();
            assert(views(path_copy@) =~= views(path@));
            self.matches_for_path.add_path(path_copy, match_directive_key_argument.clone());
        }
        if !self.matches_for_path.has_key(&path, match_directive_key_argument) {
            return None;
        }
        let conflict: Option<Location> = match self.matches_for_path.get(&path, type_condition) {
            Some(previous) => {
                if previous.fragment.item != fragment.item || previous.module_directive_name_argument
                    != *module_directive_name_argument {
                    Some(previous.fragment.location)
                } else {
                    return Some(Ok(()));
                }
            },
            None => None,
        };
        if let Some(previous_location) = conflict {
            let type_string = match self.program.schema.get_type_name(type_condition) {
                Some(type_string) => type_string.clone(),
                None => {
                    return None;
                },
            };
            return Some(
                Err(
                    Diagnostic::error(
                        ValidationMessage::InvalidModuleSelectionMultipleMatches {
                            type_string,
                            alias_path: join(&path, PATH_SEPARATOR),
                        },
                        fragment.location,
                    ).annotate(RELATED_LOCATION, previous_location),
                ),
            );
        }
        self.matches_for_path.add(
            &path,
            type_condition,
            TypeMatch {
                fragment: copy_text(fragment),
                module_directive_name_argument: module_directive_name_argument.clone(),
            },
        );
        proof {
            let registered = register(
                old(self).env().program.schema,
                old(self).scope(),
                old(self).progress().matches,
                type_condition,
                TypeMatchView {
                    fragment: fragment@,
                    module_name: module_directive_name_argument@,
                },
            );
            assert(self.matches_for_path@ =~= registered->0->Ok_0);
        }
        Some(Ok(()))
    }
}

/// An inline fragment on a type, with given directives and selections, that no source document
/// holds.
fn generated_fragment(
    type_condition: Type,
    directives: Vec<Directive>,
    selections: Vec<Selection>,
) -> (selection: Selection)
    ensures
        selection@ == SelectionView::InlineFragment(
            InlineFragmentView {
                type_condition: Some(type_condition),
                directives: views(directives@),
                selections: selections_view(selections@),
                spread_location: Location::spec_generated(),
            },
        ),
{
    Selection::InlineFragment(
        Arc::new(
            InlineFragment {
                type_condition: Some(type_condition),
                directives,
                selections,
                spread_location: Location::generated(),
            },
        ),
    )
}

/// The inline fragments that take the place of a `@module` spread.
fn build_module_selection(
    metadata: ModuleMetadata,
    type_condition: Type,
    selections: Vec<Selection>,
) -> (selection: Selection)
    ensures
        selection@ == SelectionView::InlineFragment(
            InlineFragmentView {
                type_condition: Some(type_condition),
                directives: Seq::empty(),
                selections: seq![
                    SelectionView::InlineFragment(
                        (InlineFragmentView {
                            type_condition: Some(type_condition),
                            directives: seq![metadata@.directive()],
                            selections: selections_view(selections@),
                            spread_location: Location::spec_generated(),
                        }),
                    ),
                ],
                spread_location: Location::spec_generated(),
            },
        ),
{
    let ghost carried = metadata@.directive();
    let mut directives: Vec<Directive> = Vec::new();
    directives.push(metadata.into_directive());
    assert(views(directives@) =~= seq![carried]);
    let inner = generated_fragment(type_condition, directives, selections);
    let mut inner_list: Vec<Selection> = Vec::new();
    inner_list.push(inner);
    assert(selections_view(inner_list@) =~= seq![inner@]);
    let no_directives: Vec<Directive> = Vec::new();
    assert(views(no_directives@) =~= Seq::empty());
    generated_fragment(type_condition, no_directives, inner_list)
}

impl<'program, 'flag> MatchTransform<'program, 'flag> {
    /// Validates a spread and turns one with `@module` into what takes its place.
    fn validate_transform_fragment_spread(&mut self, spread: &FragmentSpread) -> (result: Option<
        Result<Transformed<Selection>, Diagnostic>,
    >)
        requires
            old(self).inv(),
        ensures
            final(self).env() == old(self).env(),
            final(self).scope() == old(self).scope(),
            result is Some ==> final(self).inv(),
            match first_named(spread@.directives, MODULE_DIRECTIVE_NAME@) {
                None => {
                    &&& result == Some(Ok::<Transformed<Selection>, Diagnostic>(Transformed::Keep))
                    &&& *final(self) == *old(self)
                },
                Some(module) => match module_spread(
                    old(self).env(),
                    old(self).scope(),
                    old(self).progress(),
                    spread@,
                    module,
                ) {
                    None => result is None,
                    Some((found, Ok(selection))) => {
                        &&& result matches Some(Ok(Transformed::Replace(replacement))) && replacement@ == selection
                        &&& final(self).progress() == found
                    },
                    Some((found, Err(error))) => {
                        &&& result matches Some(Err(reported)) && reported@ == error
                        &&& final(self).progress() == found
                    },
                },
            },
    {
        // Only process the fragment spread with @module.
        let module_directive = match named(&spread.directives, MODULE_DIRECTIVE_NAME) {
            Some(module_directive) => module_directive,
            None => {
                return Some(Ok(Transformed::Keep));
            },
        };
        let request = match self.validate_module_spread(spread, module_directive) {
            None => {
                return None;
            },
            Some(Err(error)) => {
                return Some(Err(error));
            },
            Some(Ok(request)) => request,
        };
        let fragment = request.fragment;
        let match_directive_key_argument = self.module_key();
        match self.validate_module_matches(
            fragment.type_condition,
            &spread.fragment,
            &request.module_directive_name_argument,
            &match_directive_key_argument,
        ) {
            None => {
                return None;
            },
            Some(Err(error)) => {
                return Some(Err(error));
            },
            Some(Ok(_)) => {},
        }
        // Done validating. Build out the resulting fragment spread.
        let module_id = self.module_id();
        let next_spread = Selection::FragmentSpread(
            Arc::new(
                FragmentSpread {
                    fragment: copy_text(&spread.fragment),
                    arguments: copy_arguments(&spread.arguments),
                    directives: copy_without(&spread.directives, MODULE_DIRECTIVE_NAME),
                },
            ),
        );
        if request.should_use_no_inline {
            self.no_inline_fragments.add(&fragment.name.item, self.document_name.clone());
        }
        let mut next_selections: Vec<Selection> = Vec::new();
        next_selections.push(next_spread);
        assert(selections_view(next_selections@) =~= seq![plain_spread(spread@)]);
        if request.needs_js_fields {
            match self.generate_js_fields(
                &match_directive_key_argument,
                &module_id,
                &request.module_directive_name_argument,
                module_directive,
                fragment,
                spread,
            ) {
                None => {
                    return None;
                },
                Some(Err(error)) => {
                    return Some(Err(error));
                },
                Some(Ok((operation_field, component_field))) => {
                    next_selections.push(operation_field);
                    next_selections.push(component_field);
                    assert(selections_view(next_selections@) =~= seq![
                        plain_spread(spread@),
                        operation_field@,
                        component_field@,
                    ]);
                },
            }
        }
        let metadata = ModuleMetadata {
            location: module_directive.name.location,
            key: match_directive_key_argument,
            module_id,
            module_name: request.module_directive_name_argument,
            source_document_name: self.document_name.clone(),
            read_time_resolvers: request.uses_read_time_resolvers,
            fragment_name: spread.fragment.item.clone(),
            fragment_source_location: fragment.name.location,
            no_inline: request.should_use_no_inline,
        };
        Some(
            Ok(
                Transformed::Replace(
                    build_module_selection(metadata, fragment.type_condition, next_selections),
                ),
            ),
        )
    }

    /// Validates and transforms `@module` into a custom directive for codegen.
    pub(super) fn transform_fragment_spread(&mut self, spread: &FragmentSpread) -> (result: Option<
        Transformed<Selection>,
    >)
        requires
            old(self).inv(),
        ensures
            final(self).env() == old(self).env(),
            final(self).scope() == old(self).scope(),
            result is Some ==> final(self).inv(),
            match result {
                None => visit_spread(
                    old(self).env(),
                    old(self).scope(),
                    old(self).progress(),
                    spread@,
                ) is None,
                Some(transformed) => {
                    &&& visit_spread(
                        old(self).env(),
                        old(self).scope(),
                        old(self).progress(),
                        spread@,
                    ) == Some(
                        (final(self).progress(), outcome(transformed, SelectionView::FragmentSpread(spread@))),
                    )
                    &&& (transformed is Replace) == replaces(
                        old(self).env(),
                        old(self).scope(),
                        old(self).progress(),
                        SelectionView::FragmentSpread(spread@),
                    )
                },
            },
    {
        match self.validate_transform_fragment_spread(spread) {
            None => None,
            Some(Ok(transformed)) => Some(transformed),
            Some(Err(error)) => {
                self.push_error(error);
                Some(Transformed::Keep)
            },
        }
    }

    /// Validates that a field is not the `js` field.
    pub(super) fn transform_scalar_field(&mut self, field: &ScalarField) -> (result: Option<Transformed<Selection>>)
        requires
            old(self).inv(),
        ensures
            final(self).env() == old(self).env(),
            final(self).scope() == old(self).scope(),
            final(self).inv(),
            match scalar_errors(old(self).env().program.schema, field@) {
                None => result is None,
                Some(errors) => {
                    &&& result == Some(Transformed::<Selection>::Keep)
                    &&& final(self).progress() == (Progress {
                        errors: old(self).progress().errors + errors,
                        ..old(self).progress()
                    })
                },
            },
    {
        let program = self.program;
        let schema: &Schema = &program.schema;
        let field_definition = match schema.field(field.definition.item) {
            Some(field_definition) => field_definition,
            None => {
                return None;
            },
        };
        let ghost before = self.progress().errors;
        if reads(&field_definition.name.item, JS_FIELD_NAME) {
            match schema.get_type(JS_FIELD_TYPE) {
                None => {
                    self.push_error(
                        Diagnostic::error(
                            ValidationMessage::MissingServerSchemaDefinition {
                                name: JS_FIELD_NAME.to_owned(),
                            },
                            field.definition.location,
                        ),
                    );
                },
                Some(js_module_type) => {
                    let is_scalar = match js_module_type {
                        Type::Scalar(_) => true,
                        _ => false,
                    };
                    if is_scalar && field_definition.type_.inner() == js_module_type {
                        self.push_error(
                            Diagnostic::error(
                                ValidationMessage::InvalidDirectUseOfJSField {
                                    field_name: JS_FIELD_NAME.to_owned(),
                                },
                                field.definition.location,
                            ),
                        );
                    }
                },
            }
        }
        proof {
            let errors = scalar_errors(old(self).env().program.schema, field@)->0;
            assert(self.progress().errors =~= before + errors);
        }
        Some(Transformed::Keep)
    }
}

/// Whether an argument takes a string. An argument that does not exist counts as `if_absent`.
fn is_string_argument(schema: &Schema, argument: Option<&ArgumentDefinition>, if_absent: bool) -> (yes: bool)
    ensures
        yes == takes_string(
            *schema,
            (match argument {
                Some(argument) => Some(argument@),
                None => None,
            }),
            if_absent,
        ),
{
    match argument {
        Some(argument) => match argument.type_.non_list_type() {
            Some(type_) => schema.is_string(type_),
            None => false,
        },
        None => if_absent,
    }
}

/// The name that a `@module` directive gives.
fn get_module_directive_name_argument(
    module_directive: &Directive,
    spread_location: Location,
) -> (result: Result<String, Diagnostic>)
    ensures
        match result {
            Ok(name) => module_name(module_directive@, spread_location) == Ok::<Seq<char>, DiagnosticView>(name@),
            Err(error) => module_name(module_directive@, spread_location) == Err::<
                Seq<char>,
                DiagnosticView,
            >(error@),
        },
{
    match named(&module_directive.arguments, NAME_ARG) {
        None => Err(Diagnostic::error(ValidationMessage::InvalidModuleNoName, spread_location)),
        Some(name_arg) => match name_arg.value.item.get_string_literal() {
            None => Err(
                Diagnostic::error(
                    ValidationMessage::InvalidModuleNonLiteralName,
                    name_arg.name.location,
                ),
            ),
            Some(name) => Ok(name.clone()),
        },
    }
}

/// An argument whose value is a string literal.
fn build_string_literal_argument(name: &str, value: &String, location: Location) -> (argument: Argument)
    ensures
        argument@ == string_argument(name@, value@, location),
{
    Argument {
        name: WithLocation::new(location, name.to_owned()),
        value: WithLocation::new(location, Value::Constant(ConstantValue::String(value.clone()))),
    }
}

} // verus!
