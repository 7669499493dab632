//! What is left to do where nothing is reported, and what nothing is done to.

use vstd::prelude::*;

use crate::constants::{KEY_ARG, MATCH_DIRECTIVE_NAME, MODULE_DIRECTIVE_NAME, SUPPORTED_ARG};
use crate::ir::{without, DirectiveView, FragmentSpreadView, SelectionView};
use crate::laws::growth::{found_only_grows, lemma_visit_grows, within_field};
use crate::laws::modules::spread_is_replaced_or_reported;
use crate::model::{
    plain_spread, scalar_errors, visit, visit_all, visit_spread, Env, Progress, Scope,
};
use crate::named::{first_named, lemma_first_named};
use crate::schema::Schema;

verus! {

/// Whether nothing is left to do for a selection: no spread carries `@module`, and a field carries
/// `@match` only where it cannot list the supported types and `@match` gives a key.
pub open spec fn is_settled(schema: Schema, selection: SelectionView) -> bool
    decreases selection,
{
    match selection {
        SelectionView::FragmentSpread(spread) => first_named(spread.directives, MODULE_DIRECTIVE_NAME@) is None,
        SelectionView::ScalarField(_) => true,
        SelectionView::Condition(condition) => are_settled(schema, condition.selections),
        SelectionView::InlineFragment(fragment) => are_settled(schema, fragment.selections),
        SelectionView::LinkedField(field) => {
            &&& first_named(field.directives, MATCH_DIRECTIVE_NAME@) matches Some(directive) ==> {
                &&& first_named(directive.arguments, KEY_ARG@) is Some
                &&& schema.spec_field(field.definition.item) is Some
                &&& first_named(
                    schema.spec_field(field.definition.item)->0.arguments,
                    SUPPORTED_ARG@,
                ) is None
            }
            &&& are_settled(schema, field.selections)
        },
    }
}

/// Whether nothing is left to do for selections.
pub open spec fn are_settled(schema: Schema, selections: Seq<SelectionView>) -> bool
    decreases selections,
{
    if selections.len() == 0 {
        true
    } else {
        &&& is_settled(schema, selections[0])
        &&& are_settled(schema, selections.drop_first())
    }
}

/// Directives that do not go by a name hold none of that name.
pub(super) proof fn lemma_without_it(directives: Seq<DirectiveView>, name: Seq<char>)
    ensures
        first_named(without(directives, name), name) is None,
{
    broadcast use vstd::seq_lib::group_filter_ensures;

    let rest = without(directives, name);
    lemma_first_named(rest, name);
    if let Some(directive) = first_named(rest, name) {
        assert(rest.contains(directive));
    }
}

/// Where nothing is reported, nothing is left to do: all `@module` spreads have been replaced,
/// and all `@match` directives have become arguments, but for those that only give a key.
pub proof fn unreported_is_settled(
    env: Env,
    scope: Scope,
    progress: Progress,
    selections: Seq<SelectionView>,
)
    ensures
        visit_all(env, scope, progress, selections) matches Some((found, next)) ==> found.errors
            == progress.errors ==> are_settled(env.program.schema, next),
    decreases selections,
{
    if selections.len() > 0 {
        lemma_unreported_is_settled(env, scope, progress, selections[0]);
        lemma_visit_grows(env, scope, progress, selections[0]);
        if let Some((found, first)) = visit(env, scope, progress, selections[0]) {
            unreported_is_settled(env, scope, found, selections.drop_first());
            found_only_grows(env, scope, found, selections.drop_first());
            if let Some((all_found, rest)) = visit_all(env, scope, found, selections.drop_first()) {
                let next = seq![first] + rest;
                assert(next.drop_first() =~= rest);
                if all_found.errors == progress.errors {
                    assert(found.errors =~= progress.errors);
                }
            }
        }
    }
}

/// Where nothing is reported of a selection, nothing is left to do for it.
proof fn lemma_unreported_is_settled(
    env: Env,
    scope: Scope,
    progress: Progress,
    selection: SelectionView,
)
    ensures
        visit(env, scope, progress, selection) matches Some((found, next)) ==> found.errors
            == progress.errors ==> is_settled(env.program.schema, next),
    decreases selection,
{
    let schema = env.program.schema;
    match selection {
        SelectionView::FragmentSpread(spread) => {
            lemma_unreported_spread_is_settled(env, scope, progress, spread);
        },
        SelectionView::ScalarField(_) => {},
        SelectionView::InlineFragment(fragment) => {
            unreported_is_settled(env, scope.in_fragment(fragment), progress, fragment.selections);
        },
        SelectionView::Condition(condition) => {
            unreported_is_settled(env, scope, progress, condition.selections);
        },
        SelectionView::LinkedField(field) => {
            lemma_without_it(field.directives, MATCH_DIRECTIVE_NAME@);
            if let Some(inner) = within_field(env, scope, field) {
                unreported_is_settled(env, inner, progress, field.selections);
                found_only_grows(env, inner, progress, field.selections);
                if let Some((found, next)) = visit_all(env, inner, progress, field.selections) {
                    if let Some((all_found, _)) = visit(env, scope, progress, selection) {
                        if all_found.errors == progress.errors {
                            assert(found.errors.len() <= all_found.errors.len());
                            assert(found.errors =~= progress.errors);
                        }
                    }
                }
            }
        },
    }
}

/// Where nothing is reported of a spread, nothing is left to do for what follows it.
proof fn lemma_unreported_spread_is_settled(
    env: Env,
    scope: Scope,
    progress: Progress,
    spread: FragmentSpreadView,
)
    ensures
        visit_spread(env, scope, progress, spread) matches Some((found, next)) ==> found.errors
            == progress.errors ==> is_settled(env.program.schema, next),
{
    let schema = env.program.schema;
    lemma_without_it(spread.directives, MODULE_DIRECTIVE_NAME@);
    spread_is_replaced_or_reported(env, scope, progress, spread);
    if let Some((found, next)) = visit_spread(env, scope, progress, spread) {
        if let SelectionView::InlineFragment(outer) = next {
            let inner = outer.selections[0]->InlineFragment_0;
            assert(is_settled(schema, plain_spread(spread)));
            lemma_flat_are_settled(schema, inner.selections);
            assert(outer.selections.drop_first() =~= Seq::empty());
            assert(is_settled(schema, outer.selections[0]));
            assert(are_settled(schema, outer.selections.drop_first()));
            assert(are_settled(schema, outer.selections));
        }
    }
}

/// Nothing is left to do for settled spreads and for fields without selections.
proof fn lemma_flat_are_settled(schema: Schema, selections: Seq<SelectionView>)
    requires
        forall|i: int|
            0 <= i < selections.len() ==> is_settled(schema, #[trigger] selections[i])
                || selections[i] is ScalarField,
    ensures
        are_settled(schema, selections),
    decreases selections,
{
    if selections.len() > 0 {
        assert(is_settled(schema, selections[0]));
        assert forall|i: int| 0 <= i < selections.drop_first().len() implies is_settled(
            schema,
            #[trigger] selections.drop_first()[i],
        ) || selections.drop_first()[i] is ScalarField by {
            assert(selections.drop_first()[i] == selections[i + 1]);
        }
        lemma_flat_are_settled(schema, selections.drop_first());
    }
}

/// Whether a selection has nothing to do with `@match` and `@module`: no spread carries `@module`,
/// no field carries `@match`, the schema knows every field, and a field that is called `js` is
/// selected only where its type is not the scalar `JSDependency` that the schema defines.
pub open spec fn is_plain(schema: Schema, selection: SelectionView) -> bool
    decreases selection,
{
    match selection {
        SelectionView::FragmentSpread(spread) => first_named(spread.directives, MODULE_DIRECTIVE_NAME@) is None,
        SelectionView::ScalarField(field) => scalar_errors(schema, field) matches Some(errors) && errors.len()
            == 0,
        SelectionView::Condition(condition) => are_plain(schema, condition.selections),
        SelectionView::InlineFragment(fragment) => are_plain(schema, fragment.selections),
        SelectionView::LinkedField(field) => {
            &&& schema.spec_field(field.definition.item) is Some
            &&& first_named(field.directives, MATCH_DIRECTIVE_NAME@) is None
            &&& are_plain(schema, field.selections)
        },
    }
}

/// Whether selections have nothing to do with `@match` and `@module`.
pub open spec fn are_plain(schema: Schema, selections: Seq<SelectionView>) -> bool
    decreases selections,
{
    if selections.len() == 0 {
        true
    } else {
        &&& is_plain(schema, selections[0])
        &&& are_plain(schema, selections.drop_first())
    }
}

/// Selections that have nothing to do with `@match` and `@module` stay as they are, and nothing
/// is found in them.
pub proof fn plain_selections_stay(
    env: Env,
    scope: Scope,
    progress: Progress,
    selections: Seq<SelectionView>,
)
    requires
        are_plain(env.program.schema, selections),
    ensures
        visit_all(env, scope, progress, selections) == Some((progress, selections)),
    decreases selections,
{
    if selections.len() > 0 {
        lemma_plain_selection_stays(env, scope, progress, selections[0]);
        plain_selections_stay(env, scope, progress, selections.drop_first());
        assert(seq![selections[0]] + selections.drop_first() =~= selections);
    } else {
        assert(selections =~= Seq::empty());
    }
}

/// A selection that has nothing to do with `@match` and `@module` stays as it is.
proof fn lemma_plain_selection_stays(
    env: Env,
    scope: Scope,
    progress: Progress,
    selection: SelectionView,
)
    requires
        is_plain(env.program.schema, selection),
    ensures
        visit(env, scope, progress, selection) == Some((progress, selection)),
    decreases selection,
{
    match selection {
        SelectionView::FragmentSpread(_) => {},
        SelectionView::ScalarField(field) => {
            let errors = scalar_errors(env.program.schema, field)->0;
            assert(progress.errors + errors =~= progress.errors);
        },
        SelectionView::InlineFragment(fragment) => {
            plain_selections_stay(env, scope.in_fragment(fragment), progress, fragment.selections);
        },
        SelectionView::Condition(condition) => {
            plain_selections_stay(env, scope, progress, condition.selections);
        },
        SelectionView::LinkedField(field) => {
            let inner = within_field(env, scope, field)->0;
            plain_selections_stay(env, inner, progress, field.selections);
        },
    }
}

} // verus!
