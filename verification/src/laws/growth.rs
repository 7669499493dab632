//! A run loses nothing, and every selection keeps its place: what is not replaced stays.

use vstd::map_lib::lemma_submap_of_trans;
use vstd::prelude::*;

use crate::constants::{MATCH_DIRECTIVE_NAME, MODULE_DIRECTIVE_NAME};
use crate::diagnostic::DiagnosticView;
use crate::ir::{FragmentSpreadView, LinkedFieldView, SelectionView};
use crate::model::{
    any_replaces, field_step, match_key, parent_type_model, replaces, visit, visit_all,
    visit_spread, with_model, Env, KnownModels, MatchMap, Progress, Scope,
};
use crate::named::first_named;
use crate::schema::Schema;

verus! {

/// Whether every spread of `before` is one of `after`, at its path and with its key.
pub open spec fn matches_grow(before: MatchMap, after: MatchMap) -> bool {
    forall|path: Seq<Seq<char>>| #[trigger]
        before.contains_key(path) ==> {
            &&& after.contains_key(path)
            &&& after[path].key == before[path].key
            &&& before[path].types.submap_of(after[path].types)
        }
}

/// Whether `after` holds everything that `before` does: the reports stay, in their order, and so
/// do the spreads that were met, the uses of the fragments that are kept apart and the types that
/// are known to have models.
pub open spec fn grows(before: Progress, after: Progress) -> bool {
    &&& before.errors.is_prefix_of(after.errors)
    &&& matches_grow(before.matches, after.matches)
    &&& before.known_models.interfaces.subset_of(after.known_models.interfaces)
    &&& before.known_models.unions.subset_of(after.known_models.unions)
    &&& forall|fragment: Seq<char>| #[trigger]
        before.no_inline.contains_key(fragment) ==> {
            &&& after.no_inline.contains_key(fragment)
            &&& before.no_inline[fragment].is_prefix_of(after.no_inline[fragment])
        }
}

/// Growing twice is growing.
proof fn lemma_grows_on(first: Progress, second: Progress, third: Progress)
    requires
        grows(first, second),
        grows(second, third),
    ensures
        grows(first, third),
{
    assert forall|path: Seq<Seq<char>>| #[trigger] first.matches.contains_key(path) implies {
        &&& third.matches.contains_key(path)
        &&& third.matches[path].key == first.matches[path].key
        &&& first.matches[path].types.submap_of(third.matches[path].types)
    } by {
        assert(second.matches.contains_key(path));
        lemma_submap_of_trans(
            first.matches[path].types,
            second.matches[path].types,
            third.matches[path].types,
        );
    }
    assert forall|fragment: Seq<char>| #[trigger] first.no_inline.contains_key(fragment) implies {
        &&& third.no_inline.contains_key(fragment)
        &&& first.no_inline[fragment].is_prefix_of(third.no_inline[fragment])
    } by {
        assert(second.no_inline.contains_key(fragment));
    }
}

/// Where the selections of a field stand, if the field may be entered.
pub open spec fn within_field(env: Env, scope: Scope, field: LinkedFieldView) -> Option<Scope> {
    match env.program.schema.spec_field(field.definition.item) {
        None => None,
        Some(definition) => {
            let type_ = definition.type_.spec_inner();
            let step = field_step(field, definition);
            match first_named(field.directives, MATCH_DIRECTIVE_NAME@) {
                None => Some(scope.in_field(type_, None, step)),
                Some(directive) => match match_key(scope.document, directive) {
                    Err(_) => None,
                    Ok(key) => Some(scope.in_field(type_, key, step)),
                },
            }
        },
    }
}

/// A spread loses nothing of what has been found.
proof fn lemma_spread_grows(env: Env, scope: Scope, progress: Progress, spread: FragmentSpreadView)
    ensures
        visit_spread(env, scope, progress, spread) matches Some((found, _)) ==> grows(progress, found),
{
}

/// A run loses nothing: what has been reported stays reported, and a spread that was accepted for
/// a type at a path stays the one for that type at that path.
pub proof fn found_only_grows(env: Env, scope: Scope, progress: Progress, selections: Seq<SelectionView>)
    ensures
        visit_all(env, scope, progress, selections) matches Some((found, _)) ==> grows(progress, found),
    decreases selections,
{
    if selections.len() > 0 {
        lemma_visit_grows(env, scope, progress, selections[0]);
        if let Some((found, _)) = visit(env, scope, progress, selections[0]) {
            found_only_grows(env, scope, found, selections.drop_first());
            if let Some((all_found, _)) = visit_all(env, scope, found, selections.drop_first()) {
                lemma_grows_on(progress, found, all_found);
            }
        }
    }
}

/// A selection loses nothing of what has been found.
pub(super) proof fn lemma_visit_grows(env: Env, scope: Scope, progress: Progress, selection: SelectionView)
    ensures
        visit(env, scope, progress, selection) matches Some((found, _)) ==> grows(progress, found),
    decreases selection,
{
    match selection {
        SelectionView::FragmentSpread(spread) => {
            lemma_spread_grows(env, scope, progress, spread);
        },
        SelectionView::ScalarField(_) => {},
        SelectionView::InlineFragment(fragment) => {
            found_only_grows(env, scope.in_fragment(fragment), progress, fragment.selections);
        },
        SelectionView::Condition(condition) => {
            found_only_grows(env, scope, progress, condition.selections);
        },
        SelectionView::LinkedField(field) => {
            if let Some(inner) = within_field(env, scope, field) {
                found_only_grows(env, inner, progress, field.selections);
            }
        },
    }
}

/// Whether `after` may take the place of `before`: fields, fragments and conditions stay what
/// they are, apart from what a field takes and what they hold, and a spread stays as it is or,
/// with `@module`, becomes an inline fragment.
pub open spec fn takes_place(before: SelectionView, after: SelectionView) -> bool {
    match (before, after) {
        (SelectionView::ScalarField(_), _) => after == before,
        (SelectionView::LinkedField(field), SelectionView::LinkedField(next)) => {
            &&& next.alias == field.alias
            &&& next.definition == field.definition
            &&& next.selections.len() == field.selections.len()
        },
        (SelectionView::InlineFragment(fragment), SelectionView::InlineFragment(next)) => {
            &&& next.type_condition == fragment.type_condition
            &&& next.directives == fragment.directives
            &&& next.spread_location == fragment.spread_location
            &&& next.selections.len() == fragment.selections.len()
        },
        (SelectionView::Condition(condition), SelectionView::Condition(next)) => {
            &&& next.value == condition.value
            &&& next.passing_value == condition.passing_value
            &&& next.location == condition.location
            &&& next.selections.len() == condition.selections.len()
        },
        (SelectionView::FragmentSpread(_), SelectionView::FragmentSpread(_)) => after == before,
        (SelectionView::FragmentSpread(spread), SelectionView::InlineFragment(_)) => first_named(
            spread.directives,
            MODULE_DIRECTIVE_NAME@,
        ) is Some,
        _ => false,
    }
}

/// No selection is added or dropped: each is followed by one that may take its place.
pub proof fn places_are_kept(env: Env, scope: Scope, progress: Progress, selections: Seq<SelectionView>)
    ensures
        visit_all(env, scope, progress, selections) matches Some((_, next)) ==> {
            &&& next.len() == selections.len()
            &&& forall|i: int|
                0 <= i < selections.len() ==> takes_place(#[trigger] selections[i], next[i])
        },
    decreases selections,
{
    if selections.len() > 0 {
        lemma_place_is_kept(env, scope, progress, selections[0]);
        if let Some((found, first)) = visit(env, scope, progress, selections[0]) {
            places_are_kept(env, scope, found, selections.drop_first());
            if let Some((all_found, rest)) = visit_all(env, scope, found, selections.drop_first()) {
                let next = seq![first] + rest;
                assert forall|i: int| 0 <= i < selections.len() implies takes_place(
                    #[trigger] selections[i],
                    next[i],
                ) by {
                    if i > 0 {
                        assert(selections.drop_first()[i - 1] == selections[i]);
                    }
                }
            }
        }
    }
}

/// A selection is followed by one that may take its place.
proof fn lemma_place_is_kept(env: Env, scope: Scope, progress: Progress, selection: SelectionView)
    ensures
        visit(env, scope, progress, selection) matches Some((_, next)) ==> takes_place(selection, next),
    decreases selection,
{
    match selection {
        SelectionView::FragmentSpread(_) => {},
        SelectionView::ScalarField(_) => {},
        SelectionView::InlineFragment(fragment) => {
            places_are_kept(env, scope.in_fragment(fragment), progress, fragment.selections);
        },
        SelectionView::Condition(condition) => {
            places_are_kept(env, scope, progress, condition.selections);
        },
        SelectionView::LinkedField(field) => {
            if let Some(inner) = within_field(env, scope, field) {
                places_are_kept(env, inner, progress, field.selections);
            }
        },
    }
}

/// Whether everything that is known to have models has them.
pub open spec fn models_hold(schema: Schema, known: KnownModels) -> bool {
    &&& forall|id: u32| #[trigger]
        known.interfaces.contains(id) ==> {
            &&& id < schema.interfaces@.len()
            &&& schema.spec_all_have_model(schema.interfaces@[id as int].implementing_objects@) == Some(true)
        }
    &&& forall|id: u32| #[trigger]
        known.unions.contains(id) ==> {
            &&& id < schema.unions@.len()
            &&& schema.spec_all_have_model(schema.unions@[id as int].members@) == Some(true)
        }
}

/// A spread makes known at most the type that it stands on: the known models stay, or they grow by
/// that type, and then it has models throughout.
pub proof fn known_models_grow_by_the_parent(
    env: Env,
    scope: Scope,
    progress: Progress,
    spread: FragmentSpreadView,
)
    ensures
        visit_spread(env, scope, progress, spread) matches Some((found, _)) ==> {
            ||| found.known_models == progress.known_models
            ||| {
                &&& env.imports.spec_for_resolvers()
                &&& found.known_models == with_model(progress.known_models, scope.parent_type)
                &&& parent_type_model(env.program.schema, scope.parent_type, spread) == Some(
                    Ok::<bool, DiagnosticView>(true),
                )
            }
        },
{
}

/// What is known to have models has them, after a run over selections as before it.
pub proof fn known_models_hold(env: Env, scope: Scope, progress: Progress, selections: Seq<SelectionView>)
    requires
        models_hold(env.program.schema, progress.known_models),
    ensures
        visit_all(env, scope, progress, selections) matches Some((found, _)) ==> models_hold(
            env.program.schema,
            found.known_models,
        ),
    decreases selections,
{
    if selections.len() > 0 {
        lemma_known_models_hold(env, scope, progress, selections[0]);
        if let Some((found, _)) = visit(env, scope, progress, selections[0]) {
            known_models_hold(env, scope, found, selections.drop_first());
        }
    }
}

/// What is known to have models has them, after a selection as before it.
proof fn lemma_known_models_hold(env: Env, scope: Scope, progress: Progress, selection: SelectionView)
    requires
        models_hold(env.program.schema, progress.known_models),
    ensures
        visit(env, scope, progress, selection) matches Some((found, _)) ==> models_hold(
            env.program.schema,
            found.known_models,
        ),
    decreases selection,
{
    match selection {
        SelectionView::FragmentSpread(spread) => {
            known_models_grow_by_the_parent(env, scope, progress, spread);
        },
        SelectionView::ScalarField(_) => {},
        SelectionView::InlineFragment(fragment) => {
            known_models_hold(env, scope.in_fragment(fragment), progress, fragment.selections);
        },
        SelectionView::Condition(condition) => {
            known_models_hold(env, scope, progress, condition.selections);
        },
        SelectionView::LinkedField(field) => {
            if let Some(inner) = within_field(env, scope, field) {
                known_models_hold(env, inner, progress, field.selections);
            }
        },
    }
}

/// Selections of which none is replaced stay as they are.
pub proof fn unreplaced_selections_stay(
    env: Env,
    scope: Scope,
    progress: Progress,
    selections: Seq<SelectionView>,
)
    requires
        !any_replaces(env, scope, progress, selections),
    ensures
        visit_all(env, scope, progress, selections) matches Some((_, next)) ==> next == selections,
    decreases selections,
{
    if selections.len() > 0 {
        lemma_unreplaced_selection_stays(env, scope, progress, selections[0]);
        if let Some((found, _)) = visit(env, scope, progress, selections[0]) {
            unreplaced_selections_stay(env, scope, found, selections.drop_first());
            assert(seq![selections[0]] + selections.drop_first() =~= selections);
        }
    } else {
        assert(selections =~= Seq::empty());
    }
}

/// A selection that is not replaced stays as it is.
proof fn lemma_unreplaced_selection_stays(
    env: Env,
    scope: Scope,
    progress: Progress,
    selection: SelectionView,
)
    requires
        !replaces(env, scope, progress, selection),
    ensures
        visit(env, scope, progress, selection) matches Some((_, next)) ==> next == selection,
    decreases selection,
{
    match selection {
        SelectionView::FragmentSpread(_) => {},
        SelectionView::ScalarField(_) => {},
        SelectionView::InlineFragment(fragment) => {
            unreplaced_selections_stay(env, scope.in_fragment(fragment), progress, fragment.selections);
        },
        SelectionView::Condition(condition) => {
            unreplaced_selections_stay(env, scope, progress, condition.selections);
        },
        SelectionView::LinkedField(field) => {
            if let Some(inner) = within_field(env, scope, field) {
                if !any_replaces(env, inner, progress, field.selections) {
                    unreplaced_selections_stay(env, inner, progress, field.selections);
                }
            }
        },
    }
}

} // verus!
