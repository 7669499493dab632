//! Fields with `@match`, and what is selected in fields, fragments and conditions.

use std::sync::Arc;

use vstd::prelude::*;

use crate::constants::{
    IN_MATCH_DIRECTIVE, KEY_ARG, MATCH_DIRECTIVE_NAME, MODULE_DIRECTIVE_NAME, SUPPORTED_ARG,
};
use crate::diagnostic::{Diagnostic, DiagnosticView, ValidationMessage};
use crate::ir::{
    copy_arguments, copy_condition_value, copy_directives, copy_selections, copy_without,
    selections_view, Argument, Condition, ConstantValue, ConstantValueView, Directive,
    ExecutableDefinitionName, FragmentAliasMetadata, InlineFragment, LinkedField, LinkedFieldView,
    ProgramView, Selection, SelectionView, Value,
};
use crate::location::{copy_optional_text, copy_text, Location, WithLocation};
use crate::model::{
    alias_within_match, any_replaces, field_step, match_errors, match_field, match_key,
    match_selection_errors, matched_field, matched_types, name_literals, no_module_spread, replaces,
    replaces_matched, takes_string_list, visit, visit_all, Progress, Scope,
};
use crate::named::{first_named, named};
use crate::schema::{ArgumentDefinition, Field, Schema, Type, TypeReference};
use crate::tables::SeenTypes;
use crate::text::{begins_with, opt_view, views};
use crate::transform::{outcome, outcomes, MatchTransform, Transformed};

verus! {

/// Whether an argument takes a list of strings.
fn is_string_list_argument(schema: &Schema, argument: &ArgumentDefinition) -> (yes: bool)
    ensures
        yes == takes_string_list(*schema, argument@),
{
    match argument.type_.nullable_type() {
        TypeReference::List(of) => match of.nullable_type() {
            TypeReference::Named(type_) => schema.is_string(*type_),
            _ => false,
        },
        _ => false,
    }
}

/// The names of types, as string literals.
fn build_name_literals(schema: &Schema, types: &Vec<Type>) -> (names: Option<Vec<ConstantValue>>)
    ensures
        match names {
            None => name_literals(*schema, types@) is None,
            Some(names) => name_literals(*schema, types@) == Some(views(names@)),
        },
{
    let mut names: Vec<ConstantValue> = Vec::new();
    let mut i: usize = 0;
    assert(views(names@) =~= Seq::empty());
    assert(types@.take(0) =~= Seq::empty());
    while i < types.len()
        invariant
            i <= types.len(),
            name_literals(*schema, types@.take(i as int)) == Some(views(names@)),
        decreases types.len() - i,
    {
        assert(types@.take(i + 1).drop_last() =~= types@.take(i as int));
        let ghost before = views(names@);
        match schema.get_type_name(types[i]) {
            None => {
                proof {
                    lemma_no_name_literals(*schema, types@, i as int);
                }
                return None;
            },
            Some(name) => {
                names.push(ConstantValue::String(name.clone()));
                assert(views(names@) =~= before.push(ConstantValueView::String(name@)));
            },
        }
        i = i + 1;
    }
    assert(types@.take(i as int) =~= types@);
    Some(names)
}

/// Types have no names as soon as one of them has none.
proof fn lemma_no_name_literals(schema: Schema, types: Seq<Type>, i: int)
    requires
        0 <= i < types.len(),
        schema.spec_get_type_name(types[i]) is None,
    ensures
        name_literals(schema, types) is None,
    decreases types.len(),
{
    if i < types.len() - 1 {
        lemma_no_name_literals(schema, types.drop_last(), i);
    }
}

/// Selections have no matched types as soon as a `@module` spread among them uses a fragment that
/// does not exist.
proof fn lemma_no_matched_types(program: ProgramView, selections: Seq<SelectionView>, count: int)
    requires
        0 <= count <= selections.len(),
        matched_types(program, selections.take(count)) is None,
    ensures
        matched_types(program, selections) is None,
    decreases selections.len() - count,
{
    if count < selections.len() {
        assert(selections.take(count + 1).drop_last() =~= selections.take(count));
        lemma_no_matched_types(program, selections, count + 1);
    } else {
        assert(selections.take(count) =~= selections);
    }
}

impl<'program, 'flag> MatchTransform<'program, 'flag> {
    /// Reports that a selection under `@match` is no `@module` spread.
    fn push_fragment_spread_with_module_selection_err(
        &mut self,
        selection_location: Location,
        match_location: Location,
    )
        requires
            old(self).inv(),
        ensures
            final(self).inv(),
            final(self).env() == old(self).env(),
            final(self).scope() == old(self).scope(),
            final(self).progress() == old(self).progress().report(
                no_module_spread(selection_location, match_location),
            ),
    {
        self.push_error(
            Diagnostic::error(
                ValidationMessage::InvalidMatchNotAllSelectionsFragmentSpreadWithModule,
                selection_location,
            ).annotate(IN_MATCH_DIRECTIVE, match_location),
        );
    }

    /// Reports that an aliased fragment stands under `@match`.
    fn push_alias_within_match_selection_err(
        &mut self,
        match_location: Location,
        alias_location: Location,
    )
        requires
            old(self).inv(),
        ensures
            final(self).inv(),
            final(self).env() == old(self).env(),
            final(self).scope() == old(self).scope(),
            final(self).progress() == old(self).progress().report(
                alias_within_match(match_location, alias_location),
            ),
    {
        self.push_error(
            Diagnostic::error(ValidationMessage::InvalidAliasWithinMatch, alias_location).annotate(
                IN_MATCH_DIRECTIVE,
                match_location,
            ),
        );
    }

    /// Tracks the types of `@module` spreads, and validates that there are only `__typename` and
    /// `@module` spreads under `@match`.
    fn validate_match_selections(
        &mut self,
        selections: &Vec<Selection>,
        match_directive: &Directive,
    ) -> (result: Option<Vec<Type>>)
        requires
            old(self).inv(),
        ensures
            final(self).inv(),
            final(self).env() == old(self).env(),
            final(self).scope() == old(self).scope(),
            match result {
                None => matched_types(old(self).env().program, selections_view(selections@)) is None,
                Some(types) => {
                    &&& matched_types(old(self).env().program, selections_view(selections@)) == Some(types@)
                    &&& final(self).progress() == (Progress {
                        errors: old(self).progress().errors + match_errors(
                            old(self).env().program.schema,
                            match_directive@,
                            selections_view(selections@),
                        ),
                        ..old(self).progress()
                    })
                },
            },
    {
        let program = self.program;
        let mut seen_types = SeenTypes::new();
        let ghost all = selections_view(selections@);
        let mut i: usize = 0;
        assert(all.take(0) =~= Seq::empty());
        assert(self.progress().errors =~= old(self).progress().errors + Seq::empty());
        while i < selections.len()
            invariant
                i <= selections.len(),
                self.inv(),
                seen_types.inv(),
                all == selections_view(selections@),
                program@ == self.env().program,
                self.env() == old(self).env(),
                self.scope() == old(self).scope(),
                matched_types(self.env().program, all.take(i as int)) == Some(seen_types@),
                self.progress() == (Progress {
                    errors: old(self).progress().errors + match_errors(
                        self.env().program.schema,
                        match_directive@,
                        all.take(i as int),
                    ),
                    ..old(self).progress()
                }),
            decreases selections.len() - i,
        {
            let ghost before = self.progress().errors;
            proof {
                assert(all.take(i + 1).drop_last() =~= all.take(i as int));
                assert(all.take(i + 1).last() == selections@[i as int]@);
            }
            match &selections[i] {
                Selection::FragmentSpread(spread) => {
                    if named(&spread.directives, MODULE_DIRECTIVE_NAME).is_some() {
                        match program.fragment(spread.fragment.item.as_str()) {
                            None => {
                                proof {
                                    lemma_no_matched_types(self.env().program, all, i + 1);
                                }
                                return None;
                            },
                            Some(fragment) => {
                                seen_types.insert(fragment.type_condition);
                            },
                        }
                    } else {
                        self.push_fragment_spread_with_module_selection_err(
                            spread.fragment.location,
                            match_directive.name.location,
                        );
                    }
                },
                Selection::ScalarField(field) => {
                    if field.definition.item != program.schema.typename_field {
                        self.push_fragment_spread_with_module_selection_err(
                            field.definition.location,
                            match_directive.name.location,
                        );
                    }
                },
                Selection::LinkedField(field) => {
                    self.push_fragment_spread_with_module_selection_err(
                        field.definition.location,
                        match_directive.name.location,
                    );
                },
                Selection::InlineFragment(inline_fragment) => {
                    match FragmentAliasMetadata::find(&inline_fragment.directives) {
                        Some(alias_metadata) => {
                            self.push_alias_within_match_selection_err(
                                match_directive.name.location,
                                alias_metadata.alias.location,
                            );
                        },
                        None => {
                            self.push_fragment_spread_with_module_selection_err(
                                inline_fragment.spread_location,
                                match_directive.name.location,
                            );
                        },
                    }
                },
                Selection::Condition(condition) => {
                    self.push_fragment_spread_with_module_selection_err(
                        condition.location,
                        match_directive.name.location,
                    );
                },
            }
            proof {
                let added = match_selection_errors(
                    self.env().program.schema,
                    match_directive@,
                    selections@[i as int]@,
                );
                assert(self.progress().errors =~= before + added);
                assert(self.progress().errors =~= old(self).progress().errors + match_errors(
                    self.env().program.schema,
                    match_directive@,
                    all.take(i + 1),
                ));
            }
            i = i + 1;
        }
        assert(all.take(i as int) =~= all);
        Some(seen_types.into_vec())
    }

    /// Validates a field under `@match` whose selections have been transformed, and builds the
    /// field that takes its place.
    fn finish_match(
        &mut self,
        field: &LinkedField,
        field_definition: &Field,
        match_directive: &Directive,
        next_selections: Transformed<Vec<Selection>>,
    ) -> (result: Option<Result<Transformed<Selection>, Diagnostic>>)
        requires
            old(self).inv(),
        ensures
            final(self).inv(),
            final(self).env() == old(self).env(),
            final(self).scope() == old(self).scope(),
            match match_field(
                old(self).env().program,
                field@,
                field_definition@,
                match_directive@,
                outcomes(next_selections, field@.selections),
            ) {
                None => result is None,
                Some((errors, Ok(replacement))) => {
                    &&& result matches Some(Ok(transformed)) && {
                        &&& outcome(transformed, SelectionView::LinkedField(field@))
                            == SelectionView::LinkedField(replacement)
                        &&& (transformed is Replace) == replaces_matched(
                            old(self).env().program,
                            field@,
                            field_definition@,
                            match_directive@,
                            outcomes(next_selections, field@.selections),
                            next_selections is Replace,
                        )
                    }
                    &&& final(self).progress() == (Progress {
                        errors: old(self).progress().errors + errors,
                        ..old(self).progress()
                    })
                },
                Some((errors, Err(error))) => {
                    &&& result matches Some(Err(reported)) && reported@ == error
                    &&& final(self).progress() == (Progress {
                        errors: old(self).progress().errors + errors,
                        ..old(self).progress()
                    })
                },
            },
    {
        let program = self.program;
        let schema: &Schema = &program.schema;
        assert(self.progress().errors =~= self.progress().errors + Seq::empty());
        // The linked field definition should have: 'supported: [String]'.
        match named(&field_definition.arguments, SUPPORTED_ARG) {
            None => {
                // `@match` can be used to add the `supported` argument as a field argument,
                // but it can also be used to supply a `key` argument for places
                // where there are multiple selections with `@module` in the same document.
                //
                // If the directive does not have a `key` argument, and is not on a field with a
                // `supported` argument, then it is not doing anything and is therefore an error.
                if named(&match_directive.arguments, KEY_ARG).is_none() {
                    return Some(
                        Err(
                            Diagnostic::error(
                                ValidationMessage::InvalidMatchWithNoSupportedArgument,
                                match_directive.location,
                            ),
                        ),
                    );
                }
                return Some(Ok(with_selections(field, next_selections)));
            },
            Some(supported_arg_definition) => {
                if !is_string_list_argument(schema, supported_arg_definition) {
                    return Some(
                        Err(
                            Diagnostic::error(
                                ValidationMessage::InvalidMatchNotOnNonNullListString {
                                    field_name: field_definition.name.item.clone(),
                                },
                                field.definition.location,
                            ),
                        ),
                    );
                }
            },
        }
        // The linked field should be an abstract type.
        if !field_definition.type_.inner().is_abstract_type() {
            return Some(
                Err(
                    Diagnostic::error(
                        ValidationMessage::InvalidMatchNotOnUnionOrInterface {
                            field_name: field_definition.name.item.clone(),
                        },
                        field.definition.location,
                    ),
                ),
            );
        }
        // The supported arg shouldn't be defined by the user.
        if let Some(supported_arg) = named(&field.arguments, SUPPORTED_ARG) {
            return Some(
                Err(
                    Diagnostic::error(
                        ValidationMessage::InvalidMatchNoUserSuppliedSupportedArg {
                            supported_arg: SUPPORTED_ARG.to_owned(),
                        },
                        supported_arg.name.location,
                    ),
                ),
            );
        }
        let seen_types = match self.validate_match_selections(&field.selections, match_directive) {
            Some(seen_types) => seen_types,
            None => {
                return None;
            },
        };
        if seen_types.len() == 0 {
            return Some(
                Err(
                    Diagnostic::error(
                        ValidationMessage::InvalidMatchNoModuleSelection,
                        match_directive.location,
                    ),
                ),
            );
        }
        let names = match build_name_literals(schema, &seen_types) {
            Some(names) => names,
            None => {
                return None;
            },
        };
        let ghost literals = views(names@);
        let supported = ConstantValue::List(names);
        assert(supported@->List_0 =~= literals);
        let mut next_arguments = copy_arguments(&field.arguments);
        next_arguments.push(
            Argument {
                name: WithLocation::new(field.definition.location, SUPPORTED_ARG.to_owned()),
                value: WithLocation::new(field.definition.location, Value::Constant(supported)),
            },
        );
        let next_field = LinkedField {
            alias: copy_optional_text(&field.alias),
            definition: WithLocation::new(field.definition.location, field.definition.item),
            arguments: next_arguments,
            directives: copy_without(&field.directives, MATCH_DIRECTIVE_NAME),
            selections: match next_selections {
                Transformed::Keep => copy_selections(&field.selections),
                Transformed::Replace(replacements) => replacements,
            },
        };
        assert(next_field@.arguments =~= matched_field(
            field@,
            literals,
            outcomes(next_selections, field@.selections),
        ).arguments);
        Some(Ok(Transformed::Replace(Selection::LinkedField(Arc::new(next_field)))))
    }
}

/// The field with other selections, where they are other ones.
fn with_selections(field: &LinkedField, next_selections: Transformed<Vec<Selection>>) -> (transformed:
    Transformed<Selection>)
    ensures
        outcome(transformed, SelectionView::LinkedField(field@)) == SelectionView::LinkedField(
            (LinkedFieldView { selections: outcomes(next_selections, field@.selections), ..field@ }),
        ),
        (transformed is Replace) == (next_selections is Replace),
{
    match next_selections {
        Transformed::Keep => Transformed::Keep,
        Transformed::Replace(selections) => Transformed::Replace(
            Selection::LinkedField(
                Arc::new(
                    LinkedField {
                        alias: copy_optional_text(&field.alias),
                        definition: WithLocation::new(field.definition.location, field.definition.item),
                        arguments: copy_arguments(&field.arguments),
                        directives: copy_directives(&field.directives),
                        selections,
                    },
                ),
            ),
        ),
    }
}

/// The step that a field adds to the path.
fn path_step(field: &LinkedField, field_definition: &Field) -> (step: WithLocation<String>)
    ensures
        step@ == field_step(field@, field_definition@),
{
    WithLocation {
        location: field.definition.location,
        item: match &field.alias {
            Some(alias) => alias.item.clone(),
            None => field_definition.name.item.clone(),
        },
    }
}

/// The key that a `@match` directive gives, if it gives one.
fn get_match_key(document_name: &ExecutableDefinitionName, match_directive: &Directive) -> (result: Result<
    Option<String>,
    Diagnostic,
>)
    ensures
        match result {
            Ok(key) => match_key(document_name@, match_directive@) == Ok::<Option<Seq<char>>, DiagnosticView>(
                opt_view(key),
            ),
            Err(error) => match_key(document_name@, match_directive@) == Err::<
                Option<Seq<char>>,
                DiagnosticView,
            >(error@),
        },
{
    match named(&match_directive.arguments, KEY_ARG) {
        None => Ok(None),
        Some(arg) => {
            if let Some(key) = arg.value.item.get_string_literal() {
                if begins_with(key, document_name.lookup()) {
                    return Ok(Some(key.clone()));
                }
            }
            Err(
                Diagnostic::error(
                    ValidationMessage::InvalidMatchKeyArgument { document_name: document_name.clone() },
                    arg.value.location,
                ),
            )
        },
    }
}

impl<'program, 'flag> MatchTransform<'program, 'flag> {
    /// Enters a field, and gives back the type that the run stood on.
    fn enter_field(&mut self, type_: Type, step: WithLocation<String>) -> (previous_parent_type: Type)
        requires
            old(self).inv(),
        ensures
            final(self).inv(),
            final(self).env() == old(self).env(),
            final(self).progress() == old(self).progress(),
            final(self).scope() == old(self).scope().in_field(type_, old(self).scope().key, step@),
            previous_parent_type == old(self).scope().parent_type,
    {
        let previous_parent_type = self.parent_type;
        self.parent_type = type_;
        let ghost before = views(self.path@);
        self.path.push(step);
        assert(views(self.path@) =~= before.push(step@));
        previous_parent_type
    }

    /// Leaves a field for the type that the run stood on before.
    fn leave_field(&mut self, previous_parent_type: Type)
        requires
            old(self).inv(),
            old(self).scope().path.len() > 0,
        ensures
            final(self).inv(),
            final(self).env() == old(self).env(),
            final(self).progress() == old(self).progress(),
            final(self).scope() == (Scope {
                parent_type: previous_parent_type,
                path: old(self).scope().path.drop_last(),
                ..old(self).scope()
            }),
    {
        let ghost before = views(self.path@);
        self.path.pop();
        assert(views(self.path@) =~= before.drop_last());
        self.parent_type = previous_parent_type;
    }

    /// Validates and transforms a field with `@match`. The caller has put the key of the fields
    /// around aside, and puts it back.
    fn validate_transform_linked_field_with_match_directive(
        &mut self,
        field: &LinkedField,
        match_directive: &Directive,
    ) -> (result: Option<Result<Transformed<Selection>, Diagnostic>>)
        requires
            old(self).inv(),
            old(self).scope().key is None,
            first_named(field@.directives, MATCH_DIRECTIVE_NAME@) == Some(match_directive@),
        ensures
            final(self).env() == old(self).env(),
            result is Some ==> final(self).inv(),
            match old(self).env().program.schema.spec_field(field@.definition.item) {
                None => result is None,
                Some(definition) => match match_key(old(self).scope().document, match_directive@) {
                    Err(error) => {
                        &&& result matches Some(Err(reported)) && reported@ == error
                        &&& *final(self) == *old(self)
                    },
                    Ok(key) => {
                        let inner = old(self).scope().in_field(
                            definition.type_.spec_inner(),
                            key,
                            field_step(field@, definition),
                        );
                        match visit_all(
                            old(self).env(),
                            inner,
                            old(self).progress(),
                            field@.selections,
                        ) {
                            None => result is None,
                            Some((found, selections)) => match match_field(
                                old(self).env().program,
                                field@,
                                definition,
                                match_directive@,
                                selections,
                            ) {
                                None => result is None,
                                Some((errors, matched)) => {
                                    &&& final(self).progress() == (Progress {
                                        errors: found.errors + errors,
                                        ..found
                                    })
                                    &&& final(self).scope() == (Scope { key, ..old(self).scope() })
                                    &&& match matched {
                                        Err(error) => result matches Some(Err(reported)) && reported@ == error,
                                        Ok(replacement) => result matches Some(Ok(transformed)) && {
                                            &&& outcome(transformed, SelectionView::LinkedField(field@))
                                                == SelectionView::LinkedField(replacement)
                                            &&& (transformed is Replace) == replaces_matched(
                                                old(self).env().program,
                                                field@,
                                                definition,
                                                match_directive@,
                                                selections,
                                                any_replaces(
                                                    old(self).env(),
                                                    inner,
                                                    old(self).progress(),
                                                    field@.selections,
                                                ),
                                            )
                                        },
                                    }
                                },
                            },
                        }
                    },
                },
            },
        decreases field@, 0int,
    {
        // Validate and keep track of the module key.
        let program = self.program;
        let field_definition = match program.schema.field(field.definition.item) {
            Some(field_definition) => field_definition,
            None => {
                return None;
            },
        };
        match get_match_key(&self.document_name, match_directive) {
            Ok(key) => {
                self.match_directive_key_argument = key;
            },
            Err(error) => {
                return Some(Err(error));
            },
        }
        let ghost outside = self.scope();
        let step = path_step(field, field_definition);
        let previous_parent_type = self.enter_field(field_definition.type_.inner(), step);
        let next_selections = match self.transform_selections(&field.selections) {
            Some(next_selections) => next_selections,
            None => {
                return None;
            },
        };
        self.leave_field(previous_parent_type);
        assert(outside.path.push(step@).drop_last() =~= outside.path);
        self.finish_match(field, field_definition, match_directive, next_selections)
    }

    /// Validates and transforms `@match`.
    fn transform_linked_field(&mut self, field: &LinkedField) -> (result: Option<Transformed<Selection>>)
        requires
            old(self).inv(),
        ensures
            final(self).env() == old(self).env(),
            result is Some ==> final(self).inv(),
            result is Some ==> final(self).scope() == old(self).scope(),
            ({
                let visited = visit(
                    old(self).env(),
                    old(self).scope(),
                    old(self).progress(),
                    SelectionView::LinkedField(field@),
                );
                match result {
                    None => visited is None,
                    Some(transformed) => {
                        &&& visited == Some(
                            (final(self).progress(), outcome(transformed, SelectionView::LinkedField(field@))),
                        )
                        &&& (transformed is Replace) == replaces(
                            old(self).env(),
                            old(self).scope(),
                            old(self).progress(),
                            SelectionView::LinkedField(field@),
                        )
                    },
                }
            }),
        decreases field@, 1int,
    {
        let ghost around = self.scope();
        let match_directive_key_argument = self.match_directive_key_argument.take();
        let result = match named(&field.directives, MATCH_DIRECTIVE_NAME) {
            Some(match_directive) => {
                match self.validate_transform_linked_field_with_match_directive(field, match_directive) {
                    None => {
                        return None;
                    },
                    Some(Ok(result)) => result,
                    Some(Err(error)) => {
                        self.push_error(error);
                        Transformed::Keep
                    },
                }
            },
            // Only process fields with @match.
            None => {
                let program = self.program;
                let field_definition = match program.schema.field(field.definition.item) {
                    Some(field_definition) => field_definition,
                    None => {
                        return None;
                    },
                };
                let step = path_step(field, field_definition);
                let previous_parent_type = self.enter_field(field_definition.type_.inner(), step);
                let next_selections = match self.transform_selections(&field.selections) {
                    Some(next_selections) => next_selections,
                    None => {
                        return None;
                    },
                };
                self.leave_field(previous_parent_type);
                assert(around.path.push(step@).drop_last() =~= around.path);
                with_selections(field, next_selections)
            },
        };
        self.match_directive_key_argument = match_directive_key_argument;
        Some(result)
    }

    /// Transforms what stands in an inline fragment, and keeps track of its alias and its type.
    fn transform_inline_fragment(&mut self, fragment: &InlineFragment) -> (result: Option<
        Transformed<Selection>,
    >)
        requires
            old(self).inv(),
        ensures
            final(self).env() == old(self).env(),
            result is Some ==> final(self).inv(),
            result is Some ==> final(self).scope() == old(self).scope(),
            ({
                let visited = visit(
                    old(self).env(),
                    old(self).scope(),
                    old(self).progress(),
                    SelectionView::InlineFragment(fragment@),
                );
                match result {
                    None => visited is None,
                    Some(transformed) => {
                        &&& visited == Some(
                            (
                                final(self).progress(),
                                outcome(transformed, SelectionView::InlineFragment(fragment@)),
                            ),
                        )
                        &&& (transformed is Replace) == replaces(
                            old(self).env(),
                            old(self).scope(),
                            old(self).progress(),
                            SelectionView::InlineFragment(fragment@),
                        )
                    },
                }
            }),
        decreases fragment@, 1int,
    {
        let ghost around = self.scope();
        let maybe_alias_metadata = FragmentAliasMetadata::find(&fragment.directives);
        if let Some(alias_metadata) = maybe_alias_metadata {
            self.alias_path.push(alias_metadata.alias.item.clone());
            self.path.push(copy_text(&alias_metadata.alias));
            assert(views(self.alias_path@) =~= around.aliases.push(alias_metadata@.alias.item));
            assert(views(self.path@) =~= around.path.push(alias_metadata@.alias));
        }
        let previous_parent_type = self.parent_type;
        if let Some(type_) = fragment.type_condition {
            self.parent_type = type_;
        }
        assert(self.scope() == around.in_fragment(fragment@));
        let next_selections = match self.transform_selections(&fragment.selections) {
            Some(next_selections) => next_selections,
            None => {
                return None;
            },
        };
        self.parent_type = previous_parent_type;
        if maybe_alias_metadata.is_some() {
            let ghost aliases = views(self.alias_path@);
            let ghost path = views(self.path@);
            self.alias_path.pop();
            self.path.pop();
            assert(views(self.alias_path@) =~= aliases.drop_last());
            assert(views(self.path@) =~= path.drop_last());
            assert(aliases.drop_last() =~= around.aliases);
            assert(path.drop_last() =~= around.path);
        }
        Some(
            match next_selections {
                Transformed::Keep => Transformed::Keep,
                Transformed::Replace(selections) => Transformed::Replace(
                    Selection::InlineFragment(
                        Arc::new(
                            InlineFragment {
                                type_condition: fragment.type_condition,
                                directives: copy_directives(&fragment.directives),
                                selections,
                                spread_location: fragment.spread_location,
                            },
                        ),
                    ),
                ),
            },
        )
    }

    /// Transforms what stands under a condition.
    fn transform_condition(&mut self, condition: &Condition) -> (result: Option<Transformed<Selection>>)
        requires
            old(self).inv(),
        ensures
            final(self).env() == old(self).env(),
            result is Some ==> final(self).inv(),
            result is Some ==> final(self).scope() == old(self).scope(),
            ({
                let visited = visit(
                    old(self).env(),
                    old(self).scope(),
                    old(self).progress(),
                    SelectionView::Condition(condition@),
                );
                match result {
                    None => visited is None,
                    Some(transformed) => {
                        &&& visited == Some(
                            (final(self).progress(), outcome(transformed, SelectionView::Condition(condition@))),
                        )
                        &&& (transformed is Replace) == replaces(
                            old(self).env(),
                            old(self).scope(),
                            old(self).progress(),
                            SelectionView::Condition(condition@),
                        )
                    },
                }
            }),
        decreases condition@, 1int,
    {
        match self.transform_selections(&condition.selections) {
            None => None,
            Some(Transformed::Keep) => Some(Transformed::Keep),
            Some(Transformed::Replace(selections)) => Some(
                Transformed::Replace(
                    Selection::Condition(
                        Arc::new(
                            Condition {
                                value: copy_condition_value(&condition.value),
                                passing_value: condition.passing_value,
                                selections,
                                location: condition.location,
                            },
                        ),
                    ),
                ),
            ),
        }
    }

    /// Transforms a selection.
    fn transform_selection(&mut self, selection: &Selection) -> (result: Option<Transformed<Selection>>)
        requires
            old(self).inv(),
        ensures
            final(self).env() == old(self).env(),
            result is Some ==> final(self).inv(),
            result is Some ==> final(self).scope() == old(self).scope(),
            ({
                let visited = visit(
                    old(self).env(),
                    old(self).scope(),
                    old(self).progress(),
                    selection@,
                );
                match result {
                    None => visited is None,
                    Some(transformed) => {
                        &&& visited == Some(
                            (final(self).progress(), outcome(transformed, selection@)),
                        )
                        &&& (transformed is Replace) == replaces(
                            old(self).env(),
                            old(self).scope(),
                            old(self).progress(),
                            selection@,
                        )
                    },
                }
            }),
        decreases selection@, 2int,
    {
        match selection {
            Selection::FragmentSpread(spread) => self.transform_fragment_spread(spread),
            Selection::InlineFragment(fragment) => self.transform_inline_fragment(fragment),
            Selection::LinkedField(field) => self.transform_linked_field(field),
            Selection::ScalarField(field) => self.transform_scalar_field(field),
            Selection::Condition(condition) => self.transform_condition(condition),
        }
    }

    /// Transforms selections, one after the other. They stay unless one of them is replaced.
    #[verifier::rlimit(30)]
    pub(super) fn transform_selections(&mut self, selections: &Vec<Selection>) -> (result: Option<
        Transformed<Vec<Selection>>,
    >)
        requires
            old(self).inv(),
        ensures
            final(self).env() == old(self).env(),
            result is Some ==> final(self).inv(),
            result is Some ==> final(self).scope() == old(self).scope(),
            ({
                let visited = visit_all(
                    old(self).env(),
                    old(self).scope(),
                    old(self).progress(),
                    selections_view(selections@),
                );
                match result {
                    None => visited is None,
                    Some(transformed) => {
                        &&& visited == Some(
                            (final(self).progress(), outcomes(transformed, selections_view(selections@))),
                        )
                        &&& (transformed is Replace) == any_replaces(
                            old(self).env(),
                            old(self).scope(),
                            old(self).progress(),
                            selections_view(selections@),
                        )
                    },
                }
            }),
        decreases selections_view(selections@), 3int,
    {
        let ghost all = selections_view(selections@);
        let ghost env = self.env();
        let ghost scope = self.scope();
        let ghost visited = visit_all(env, scope, self.progress(), all);
        let mut result: Vec<Selection> = Vec::new();
        let mut has_changes = false;
        let mut i: usize = 0;
        proof {
            assert(all.skip(0) =~= all);
            assert(all.take(0) =~= selections_view(result@));
            if let Some((found, rest)) = visited {
                assert(selections_view(result@) + rest =~= rest);
            }
        }
        while i < selections.len()
            invariant
                i <= selections.len(),
                self.inv(),
                all == selections_view(selections@),
                self.env() == env,
                self.scope() == scope,
                env == old(self).env(),
                scope == old(self).scope(),
                !has_changes ==> selections_view(result@) == all.take(i as int),
                visited == (match visit_all(env, scope, self.progress(), all.skip(i as int)) {
                    None => None,
                    Some((found, rest)) => Some((found, selections_view(result@) + rest)),
                }),
                visited == visit_all(env, scope, old(self).progress(), all),
                any_replaces(env, scope, old(self).progress(), all) == (has_changes || any_replaces(
                    env,
                    scope,
                    self.progress(),
                    all.skip(i as int),
                )),
            decreases selections.len() - i,
        {
            let ghost done = selections_view(result@);
            let ghost before = self.progress();
            proof {
                assert(all.skip(i as int)[0] == selections@[i as int]@);
                assert(all.skip(i as int).drop_first() =~= all.skip(i + 1));
                assert(all[i as int] == selections@[i as int]@);
            }
            let next = match self.transform_selection(&selections[i]) {
                None => {
                    return None;
                },
                Some(Transformed::Keep) => selections[i].clone(),
                Some(Transformed::Replace(replacement)) => {
                    has_changes = true;
                    replacement
                },
            };
            result.push(next);
            proof {
                assert(selections_view(result@) =~= done.push(next@));
                if let Some((found, rest)) = visit_all(env, scope, self.progress(), all.skip(i + 1)) {
                    assert(done + (seq![next@] + rest) =~= selections_view(result@) + rest);
                }
                if !has_changes {
                    assert(all.take(i as int).push(next@) =~= all.take(i + 1));
                }
            }
            i = i + 1;
        }
        proof {
            assert(all.skip(i as int) =~= Seq::empty());
            assert(all.take(i as int) =~= all);
            assert(selections_view(result@) + Seq::<SelectionView>::empty() =~= selections_view(result@));
        }
        if has_changes {
            Some(Transformed::Replace(result))
        } else {
            Some(Transformed::Keep)
        }
    }
}

} // verus!
