//! What comes of a document does not depend on the documents before it, nor on what is remembered
//! of models.

use vstd::prelude::*;

use crate::diagnostic::DiagnosticView;
use crate::ir::{FragmentSpreadView, FragmentView, LinkedFieldView, OperationView, SelectionView};
use crate::laws::growth::{models_hold, within_field};
use crate::model::{
    any_replaces, fragment_scope, known_after_parent, operation_scope, parent_type_model, replaces,
    scalar_errors, visit, visit_all, visit_fragment, visit_operation, visit_spread, with_model, Env,
    KnownModels, Progress, Scope,
};
use crate::schema::{Schema, Type};

verus! {

/// Whether two runs keep pace: from the same spreads they come to the same result and the same
/// spreads, and report the same, whatever had been reported before.
pub open spec fn keep_pace<T>(
    first: Progress,
    second: Progress,
    first_outcome: Option<(Progress, T)>,
    second_outcome: Option<(Progress, T)>,
) -> bool {
    match (first_outcome, second_outcome) {
        (None, None) => true,
        (Some((first_found, first_next)), Some((second_found, second_next))) => {
            &&& first_next == second_next
            &&& first_found.matches == second_found.matches
            &&& exists|added: Seq<DiagnosticView>|
                first_found.errors == #[trigger] (first.errors + added) && second_found.errors
                    == second.errors + added
        },
        _ => false,
    }
}

/// What comes of selections, and whether one of them is replaced, does not depend on what was
/// reported, kept apart or known to have models before.
pub proof fn earlier_reports_do_not_matter(
    env: Env,
    scope: Scope,
    first: Progress,
    second: Progress,
    selections: Seq<SelectionView>,
)
    requires
        first.matches == second.matches,
    ensures
        keep_pace(
            first,
            second,
            visit_all(env, scope, first, selections),
            visit_all(env, scope, second, selections),
        ),
        any_replaces(env, scope, first, selections) == any_replaces(env, scope, second, selections),
    decreases selections,
{
    if selections.len() == 0 {
        assert(first.errors =~= first.errors + Seq::empty());
        assert(second.errors =~= second.errors + Seq::empty());
    } else {
        lemma_earlier_reports(env, scope, first, second, selections[0]);
        if let (Some((first_found, next)), Some((second_found, _))) = (
            visit(env, scope, first, selections[0]),
            visit(env, scope, second, selections[0]),
        ) {
            let rest = selections.drop_first();
            earlier_reports_do_not_matter(env, scope, first_found, second_found, rest);
            if let (Some((first_all, _)), Some((second_all, _))) = (
                visit_all(env, scope, first_found, rest),
                visit_all(env, scope, second_found, rest),
            ) {
                let one = choose|added: Seq<DiagnosticView>|
                    first_found.errors == #[trigger] (first.errors + added) && second_found.errors
                        == second.errors + added;
                let two = choose|added: Seq<DiagnosticView>|
                    first_all.errors == #[trigger] (first_found.errors + added) && second_all.errors
                        == second_found.errors + added;
                assert(first_all.errors =~= first.errors + (one + two));
                assert(second_all.errors =~= second.errors + (one + two));
            }
        }
    }
}

/// What comes of a selection does not depend on what was reported, kept apart or known to
/// have models before.
proof fn lemma_earlier_reports(
    env: Env,
    scope: Scope,
    first: Progress,
    second: Progress,
    selection: SelectionView,
)
    requires
        first.matches == second.matches,
    ensures
        keep_pace(
            first,
            second,
            visit(env, scope, first, selection),
            visit(env, scope, second, selection),
        ),
        replaces(env, scope, first, selection) == replaces(env, scope, second, selection),
    decreases selection,
{
    assert(first.errors =~= first.errors + Seq::empty());
    assert(second.errors =~= second.errors + Seq::empty());
    match selection {
        SelectionView::FragmentSpread(spread) => {
            if let Some((found, next)) = visit_spread(env, scope, first, spread) {
                if found.errors.len() > first.errors.len() {
                    let added = seq![found.errors.last()];
                    assert(found.errors =~= first.errors + added);
                    assert((visit_spread(env, scope, second, spread)->0).0.errors =~= second.errors + added);
                }
            }
        },
        SelectionView::ScalarField(field) => {
            if let Some(errors) = scalar_errors(env.program.schema, field) {
                assert((visit(env, scope, first, selection)->0).0.errors == first.errors + errors);
            }
        },
        SelectionView::InlineFragment(fragment) => {
            earlier_reports_do_not_matter(
                env,
                scope.in_fragment(fragment),
                first,
                second,
                fragment.selections,
            );
        },
        SelectionView::Condition(condition) => {
            earlier_reports_do_not_matter(env, scope, first, second, condition.selections);
        },
        SelectionView::LinkedField(field) => {
            lemma_earlier_reports_on_field(env, scope, first, second, field);
        },
    }
}

/// What comes of a field does not depend on what was reported, kept apart or known to
/// have models before.
proof fn lemma_earlier_reports_on_field(
    env: Env,
    scope: Scope,
    first: Progress,
    second: Progress,
    field: LinkedFieldView,
)
    requires
        first.matches == second.matches,
    ensures
        keep_pace(
            first,
            second,
            visit(env, scope, first, SelectionView::LinkedField(field)),
            visit(env, scope, second, SelectionView::LinkedField(field)),
        ),
        replaces(env, scope, first, SelectionView::LinkedField(field)) == replaces(
            env,
            scope,
            second,
            SelectionView::LinkedField(field),
        ),
    decreases field,
{
    let selection = SelectionView::LinkedField(field);
    match within_field(env, scope, field) {
        None => {
            if let Some((found, _)) = visit(env, scope, first, selection) {
                let added = seq![found.errors.last()];
                assert(found.errors =~= first.errors + added);
                assert((visit(env, scope, second, selection)->0).0.errors =~= second.errors + added);
            }
        },
        Some(inner) => {
            earlier_reports_do_not_matter(env, inner, first, second, field.selections);
            if let (Some((first_found, _)), Some((second_found, _))) = (
                visit_all(env, inner, first, field.selections),
                visit_all(env, inner, second, field.selections),
            ) {
                let one = choose|added: Seq<DiagnosticView>|
                    first_found.errors == #[trigger] (first.errors + added) && second_found.errors
                        == second.errors + added;
                if let (Some((first_all, _)), Some((second_all, _))) = (
                    visit(env, scope, first, selection),
                    visit(env, scope, second, selection),
                ) {
                    let added = first_all.errors.skip(first.errors.len() as int);
                    assert(first_all.errors =~= first.errors + added);
                    assert(second_all.errors =~= second.errors + added);
                }
            }
        },
    }
}

/// What comes of an operation, and whether it is replaced, does not depend on the documents before it: no
/// key, path or spread of one document reaches the next.
pub proof fn operations_are_independent(env: Env, first: Progress, second: Progress, operation: OperationView)
    ensures
        keep_pace(
            first,
            second,
            visit_operation(env, first, operation),
            visit_operation(env, second, operation),
        ),
        any_replaces(env, operation_scope(operation), first.fresh(), operation.selections) == any_replaces(
            env,
            operation_scope(operation),
            second.fresh(),
            operation.selections,
        ),
{
    earlier_reports_do_not_matter(
        env,
        operation_scope(operation),
        first.fresh(),
        second.fresh(),
        operation.selections,
    );
}

/// What comes of a fragment, and whether it is replaced, does not depend on the documents before it: no
/// key, path or spread of one document reaches the next.
pub proof fn fragments_are_independent(env: Env, first: Progress, second: Progress, fragment: FragmentView)
    ensures
        keep_pace(
            first,
            second,
            visit_fragment(env, first, fragment),
            visit_fragment(env, second, fragment),
        ),
        any_replaces(env, fragment_scope(fragment), first.fresh(), fragment.selections) == any_replaces(
            env,
            fragment_scope(fragment),
            second.fresh(),
            fragment.selections,
        ),
{
    earlier_reports_do_not_matter(
        env,
        fragment_scope(fragment),
        first.fresh(),
        second.fresh(),
        fragment.selections,
    );
}

/// What a run remembers of models only saves work: a spread comes to the same, is reported the same
/// and leaves the same records whatever models are known, and nothing more is learned by looking at
/// it again.
pub proof fn known_models_do_not_matter(
    env: Env,
    scope: Scope,
    progress: Progress,
    known: KnownModels,
    spread: FragmentSpreadView,
)
    ensures
        match (
            visit_spread(env, scope, progress, spread),
            visit_spread(env, scope, Progress { known_models: known, ..progress }, spread),
        ) {
            (None, None) => true,
            (Some((found, next)), Some((other_found, other_next))) => {
                &&& next == other_next
                &&& other_found == (Progress { known_models: other_found.known_models, ..found })
            },
            _ => false,
        },
{
}

/// Looking at a parent type keeps what is known of models sound, and adds at most the parent type.
/// What comes of it depends on the schema, the type and the spread alone, so that looking again
/// comes to the same and adds nothing.
pub proof fn parent_type_is_learned_once(
    schema: Schema,
    known: KnownModels,
    parent_type: Type,
    spread: FragmentSpreadView,
)
    requires
        models_hold(schema, known),
    ensures
        ({
            let after = known_after_parent(schema, known, parent_type, spread);
            &&& models_hold(schema, after)
            &&& known.interfaces.subset_of(after.interfaces)
            &&& known.unions.subset_of(after.unions)
            &&& after == (if parent_type_model(schema, parent_type, spread) is Some && parent_type_model(
                schema,
                parent_type,
                spread,
            )->0 is Ok {
                with_model(known, parent_type)
            } else {
                known
            })
            &&& known_after_parent(schema, after, parent_type, spread) == after
        }),
{
    let after = known_after_parent(schema, known, parent_type, spread);
    assert(known_after_parent(schema, after, parent_type, spread) =~= after);
}

} // verus!
