//! How documents are gone through: in order, from the outside in, and what each selection hands down
//! to the selections that it holds.

use vstd::prelude::*;

use crate::diagnostic::MessageView;
use crate::ir::{
    alias_metadata, ArgumentView, ConditionView, DirectiveView, DocumentNameView, FragmentSpreadView,
    FragmentView, InlineFragmentView, LinkedFieldView, OperationView, ProgramView, ScalarFieldView,
    SelectionView,
};
use crate::laws::matched::key_begins_with_the_document;
use crate::laws::places::{alias_of, named_type, named_type_is_found};
use crate::laws::replaced::name_text;
use crate::laws::reported::{js_fields_are_reported, says};
use crate::laws::terms::{
    alias_is_found, argument_is_found, directive_is_found, has_alias, has_argument, has_directive,
    has_type, is_alias, is_first_argument, is_first_directive, is_type, literal,
};
use crate::location::WithLocation;
use crate::model::{
    match_field, match_key, scalar_errors, visit, visit_all, visit_fragment, visit_fragments,
    visit_operation, visit_operations, visit_program, Env, Progress, Scope,
};

verus! {

/// Selections are gone through in their order: those behind others come after them, and begin with
/// what was found in them.
pub proof fn selections_are_visited_in_order(
    env: Env,
    scope: Scope,
    progress: Progress,
    first: Seq<SelectionView>,
    second: Seq<SelectionView>,
)
    ensures
        visit_all(env, scope, progress, first + second) == (match visit_all(env, scope, progress, first) {
            None => None,
            Some((found, some)) => match visit_all(env, scope, found, second) {
                None => None,
                Some((all_found, others)) => Some((all_found, some + others)),
            },
        }),
    decreases first.len(),
{
    if first.len() == 0 {
        assert(first + second =~= second);
        if let Some((_, others)) = visit_all(env, scope, progress, second) {
            assert(Seq::<SelectionView>::empty() + others =~= others);
        }
    } else {
        assert((first + second).drop_first() =~= first.drop_first() + second);
        assert((first + second)[0] == first[0]);
        if let Some((found, next)) = visit(env, scope, progress, first[0]) {
            selections_are_visited_in_order(env, scope, found, first.drop_first(), second);
            if let Some((some_found, some)) = visit_all(env, scope, found, first.drop_first()) {
                if let Some((_, others)) = visit_all(env, scope, some_found, second) {
                    assert(seq![next] + (some + others) =~= (seq![next] + some) + others);
                }
            }
        }
    }
}

/// A single selection comes to what a visit of it comes to, and no selections come to nothing new.
pub proof fn single_selection_is_visited(env: Env, scope: Scope, progress: Progress, selection: SelectionView)
    ensures
        visit_all(env, scope, progress, seq![selection]) == (match visit(env, scope, progress, selection) {
            None => None,
            Some((found, next)) => Some((found, seq![next])),
        }),
        visit_all(env, scope, progress, Seq::empty()) == Some((progress, Seq::<SelectionView>::empty())),
{
    assert(seq![selection].drop_first() =~= Seq::empty());
    if let Some((found, next)) = visit(env, scope, progress, selection) {
        assert(visit_all(env, scope, found, seq![selection].drop_first()) == Some(
            (found, Seq::<SelectionView>::empty()),
        ));
        assert(seq![next] + Seq::<SelectionView>::empty() =~= seq![next]);
    }
}

/// A spread without `@module` stays, and nothing is found in it.
pub proof fn other_spreads_stay(env: Env, scope: Scope, progress: Progress, spread: FragmentSpreadView)
    requires
        !has_directive(spread.directives, "module"@),
    ensures
        visit(env, scope, progress, SelectionView::FragmentSpread(spread)) == Some(
            (progress, SelectionView::FragmentSpread(spread)),
        ),
{
    directive_is_found(spread.directives, "module"@);
}

/// A field without selections stays, and only its own report is added: one for a `js` field that
/// returns the schema's scalar `JSDependency`, and one for any field called `js` where the schema has
/// no type of that name.
pub proof fn fields_without_selections_stay(
    env: Env,
    scope: Scope,
    progress: Progress,
    field: ScalarFieldView,
)
    ensures
        match visit(env, scope, progress, SelectionView::ScalarField(field)) {
            None => field.definition.item >= env.program.schema.fields@.len(),
            Some((found, next)) => {
                let schema = env.program.schema;
                let definition = schema.fields@[field.definition.item as int]@;
                let is_js = definition.name.item == "js"@;
                let loads = named_type(definition.type_) is Scalar && is_type(
                    schema,
                    "JSDependency"@,
                    named_type(definition.type_),
                );
                &&& next == SelectionView::ScalarField(field)
                &&& found == (Progress { errors: found.errors, ..progress })
                &&& if is_js && !has_type(schema, "JSDependency"@) {
                    found.errors.drop_last() == progress.errors && found.errors.len() > 0 && says(
                        found.errors.last(),
                        MessageView::MissingServerSchemaDefinition { name: "js"@ },
                        field.definition.location,
                    )
                } else if is_js && loads {
                    found.errors.drop_last() == progress.errors && found.errors.len() > 0 && says(
                        found.errors.last(),
                        MessageView::InvalidDirectUseOfJSField { field_name: "js"@ },
                        field.definition.location,
                    )
                } else {
                    found.errors == progress.errors
                }
            },
        },
{
    js_fields_are_reported(env.program.schema, field);
    if let Some(errors) = scalar_errors(env.program.schema, field) {
        let all = progress.errors + errors;
        if errors.len() == 0 {
            assert(all =~= progress.errors);
        } else {
            assert(all.drop_last() =~= progress.errors);
        }
    }
}

/// What an inline fragment holds is gone through on the fragment's type, if it has one. An alias adds
/// to the path and to the aliases. The key of the field around stays.
pub proof fn inline_fragment_hands_down(
    env: Env,
    scope: Scope,
    progress: Progress,
    fragment: InlineFragmentView,
)
    ensures
        visit(env, scope, progress, SelectionView::InlineFragment(fragment)) == (match visit_all(
            env,
            Scope {
                document: scope.document,
                parent_type: if fragment.type_condition is Some {
                    fragment.type_condition->0
                } else {
                    scope.parent_type
                },
                key: scope.key,
                path: if has_alias(fragment.directives) {
                    scope.path.push(alias_of(fragment))
                } else {
                    scope.path
                },
                aliases: if has_alias(fragment.directives) {
                    scope.aliases.push(alias_of(fragment).item)
                } else {
                    scope.aliases
                },
            },
            progress,
            fragment.selections,
        ) {
            None => None,
            Some((found, selections)) => Some(
                (
                    found,
                    SelectionView::InlineFragment(
                        InlineFragmentView {
                            type_condition: fragment.type_condition,
                            directives: fragment.directives,
                            selections,
                            spread_location: fragment.spread_location,
                        },
                    ),
                ),
            ),
        }),
{
    alias_is_found(fragment.directives);
    if has_alias(fragment.directives) {
        assert(is_alias(fragment.directives, alias_metadata(fragment.directives)->0.alias));
        assert(alias_of(fragment) == alias_metadata(fragment.directives)->0.alias);
    }
}

/// What a condition holds is gone through as if it stood around the condition.
pub proof fn condition_hands_down(env: Env, scope: Scope, progress: Progress, condition: ConditionView)
    ensures
        visit(env, scope, progress, SelectionView::Condition(condition)) == (match visit_all(
            env,
            scope,
            progress,
            condition.selections,
        ) {
            None => None,
            Some((found, selections)) => Some(
                (
                    found,
                    SelectionView::Condition(
                        ConditionView {
                            value: condition.value,
                            passing_value: condition.passing_value,
                            selections,
                            location: condition.location,
                        },
                    ),
                ),
            ),
        }),
{
}

/// Where the selections of a field stand: on the type that the field names, one step further, and
/// with the key that the field gives, whatever the fields around give.
pub open spec fn scope_of_field(env: Env, scope: Scope, field: LinkedFieldView, key: Option<Seq<char>>) -> Scope {
    let definition = env.program.schema.fields@[field.definition.item as int];
    Scope {
        document: scope.document,
        parent_type: named_type(definition.type_),
        key,
        path: scope.path.push(
            WithLocation {
                location: field.definition.location,
                item: match field.alias {
                    Some(alias) => alias.item,
                    None => definition.name.item@,
                },
            },
        ),
        aliases: scope.aliases,
    }
}

/// Nothing comes of a field that the schema does not know.
pub proof fn unknown_field_has_no_result(env: Env, scope: Scope, progress: Progress, field: LinkedFieldView)
    requires
        field.definition.item >= env.program.schema.fields@.len(),
    ensures
        visit(env, scope, progress, SelectionView::LinkedField(field)) is None,
{
}

/// What a field without `@match` holds is gone through without a key, and the field stays but for
/// what it holds.
pub proof fn plain_field_hands_down(env: Env, scope: Scope, progress: Progress, field: LinkedFieldView)
    requires
        !has_directive(field.directives, "match"@),
        field.definition.item < env.program.schema.fields@.len(),
    ensures
        visit(env, scope, progress, SelectionView::LinkedField(field)) == (match visit_all(
            env,
            scope_of_field(env, scope, field, None),
            progress,
            field.selections,
        ) {
            None => None,
            Some((found, selections)) => Some(
                (
                    found,
                    SelectionView::LinkedField(
                        LinkedFieldView {
                            alias: field.alias,
                            definition: field.definition,
                            arguments: field.arguments,
                            directives: field.directives,
                            selections,
                        },
                    ),
                ),
            ),
        }),
{
    directive_is_found(field.directives, "match"@);
    named_type_is_found(env.program.schema.fields@[field.definition.item as int].type_);
}

/// A field whose `@match` gives a key that is no string literal, or does not begin with the document's
/// name, is reported and stays, and what it holds is not gone through.
pub proof fn field_with_a_wrong_key_is_reported(
    env: Env,
    scope: Scope,
    progress: Progress,
    field: LinkedFieldView,
    directive: DirectiveView,
    argument: ArgumentView,
)
    requires
        field.definition.item < env.program.schema.fields@.len(),
        is_first_directive(field.directives, "match"@, directive),
        is_first_argument(directive.arguments, "key"@, argument),
        forall|key: Seq<char>|
            argument.value.item == #[trigger] literal(key) ==> !name_text(scope.document).is_prefix_of(key),
    ensures
        visit(env, scope, progress, SelectionView::LinkedField(field)) matches Some((found, next)) && {
            &&& next == SelectionView::LinkedField(field)
            &&& found == (Progress { errors: found.errors, ..progress })
            &&& found.errors.len() > 0
            &&& found.errors.drop_last() == progress.errors
            &&& says(
                found.errors.last(),
                MessageView::InvalidMatchKeyArgument { document_name: scope.document },
                argument.value.location,
            )
        },
{
    directive_is_found(field.directives, "match"@);
    argument_is_found(directive.arguments, "key"@);
    key_begins_with_the_document(scope.document, directive);
    if let Err(error) = match_key(scope.document, directive) {
        assert(progress.errors.push(error).drop_last() =~= progress.errors);
    }
}

/// What a field with `@match` holds is gone through with the key that it gives, or without one. What
/// is found in it is reported first, then what is wrong with its selections, and then what is wrong
/// with the field, which then stays as it was.
pub proof fn matched_field_hands_down(
    env: Env,
    scope: Scope,
    progress: Progress,
    field: LinkedFieldView,
    directive: DirectiveView,
    key: Option<Seq<char>>,
)
    requires
        field.definition.item < env.program.schema.fields@.len(),
        is_first_directive(field.directives, "match"@, directive),
        match key {
            None => !has_argument(directive.arguments, "key"@),
            Some(key) => name_text(scope.document).is_prefix_of(key) && exists|argument: ArgumentView| #[trigger]
                is_first_argument(directive.arguments, "key"@, argument) && argument.value.item == literal(
                    key,
                ),
        },
    ensures
        visit(env, scope, progress, SelectionView::LinkedField(field)) == (match visit_all(
            env,
            scope_of_field(env, scope, field, key),
            progress,
            field.selections,
        ) {
            None => None,
            Some((found, selections)) => match match_field(
                env.program,
                field,
                env.program.schema.fields@[field.definition.item as int]@,
                directive,
                selections,
            ) {
                None => None,
                Some((errors, Ok(next))) => Some(
                    (
                        Progress { errors: found.errors + errors, ..found },
                        SelectionView::LinkedField(next),
                    ),
                ),
                Some((errors, Err(error))) => Some(
                    (
                        Progress { errors: (found.errors + errors).push(error), ..found },
                        SelectionView::LinkedField(field),
                    ),
                ),
            },
        }),
{
    directive_is_found(field.directives, "match"@);
    argument_is_found(directive.arguments, "key"@);
    key_begins_with_the_document(scope.document, directive);
    named_type_is_found(env.program.schema.fields@[field.definition.item as int].type_);
    if let Some(given) = key {
        let argument = choose|argument: ArgumentView| #[trigger]
            is_first_argument(directive.arguments, "key"@, argument) && argument.value.item == literal(given);
        assert(argument.value.item == literal(given));
    }
}

/// What an operation selects is gone through on the operation's type, under its name, without a key, a
/// path or aliases, and without the spreads of other documents. The operation stays but for that.
pub proof fn operation_hands_down(env: Env, progress: Progress, operation: OperationView)
    ensures
        visit_operation(env, progress, operation) == (match visit_all(
            env,
            Scope {
                document: DocumentNameView::Operation(operation.name.item),
                parent_type: operation.type_,
                key: None,
                path: Seq::empty(),
                aliases: Seq::empty(),
            },
            Progress { matches: Map::empty(), ..progress },
            operation.selections,
        ) {
            None => None,
            Some((found, selections)) => Some(
                (
                    found,
                    OperationView {
                        kind: operation.kind,
                        name: operation.name,
                        type_: operation.type_,
                        variable_definitions: operation.variable_definitions,
                        directives: operation.directives,
                        selections,
                    },
                ),
            ),
        }),
{
}

/// What a fragment selects is gone through on the fragment's type, under its name, without a key, a
/// path or aliases, and without the spreads of other documents. The fragment stays but for that.
pub proof fn fragment_hands_down(env: Env, progress: Progress, fragment: FragmentView)
    ensures
        visit_fragment(env, progress, fragment) == (match visit_all(
            env,
            Scope {
                document: DocumentNameView::Fragment(fragment.name.item),
                parent_type: fragment.type_condition,
                key: None,
                path: Seq::empty(),
                aliases: Seq::empty(),
            },
            Progress { matches: Map::empty(), ..progress },
            fragment.selections,
        ) {
            None => None,
            Some((found, selections)) => Some(
                (
                    found,
                    FragmentView {
                        name: fragment.name,
                        variable_definitions: fragment.variable_definitions,
                        used_global_variables: fragment.used_global_variables,
                        type_condition: fragment.type_condition,
                        directives: fragment.directives,
                        selections,
                    },
                ),
            ),
        }),
{
}

/// Operations are gone through in their order.
pub proof fn operations_are_visited_in_order(
    env: Env,
    progress: Progress,
    first: OperationView,
    others: Seq<OperationView>,
)
    ensures
        visit_operations(env, progress, Seq::empty()) == Some((progress, Seq::<OperationView>::empty())),
        visit_operations(env, progress, seq![first] + others) == (match visit_operation(env, progress, first) {
            None => None,
            Some((found, next)) => match visit_operations(env, found, others) {
                None => None,
                Some((all_found, rest)) => Some((all_found, seq![next] + rest)),
            },
        }),
{
    assert((seq![first] + others).drop_first() =~= others);
}

/// Fragments are gone through in their order.
pub proof fn fragments_are_visited_in_order(
    env: Env,
    progress: Progress,
    first: FragmentView,
    others: Seq<FragmentView>,
)
    ensures
        visit_fragments(env, progress, Seq::empty()) == Some((progress, Seq::<FragmentView>::empty())),
        visit_fragments(env, progress, seq![first] + others) == (match visit_fragment(env, progress, first) {
            None => None,
            Some((found, next)) => match visit_fragments(env, found, others) {
                None => None,
                Some((all_found, rest)) => Some((all_found, seq![next] + rest)),
            },
        }),
{
    assert((seq![first] + others).drop_first() =~= others);
}

/// All operations of a program are gone through, and then all its fragments.
pub proof fn operations_come_before_fragments(env: Env, progress: Progress)
    ensures
        visit_program(env, progress) == (match visit_operations(env, progress, env.program.operations) {
            None => None,
            Some((found, operations)) => match visit_fragments(env, found, env.program.fragments) {
                None => None,
                Some((all_found, fragments)) => Some(
                    (all_found, ProgramView { schema: env.program.schema, operations, fragments }),
                ),
            },
        }),
{
}

} // verus!
