//! What holds of all documents together.

use vstd::prelude::*;

use crate::diagnostic::{Diagnostic, DiagnosticView};
use crate::ir::{DocumentNameView, FragmentView, OperationView, Program, ProgramView, SelectionView};
use crate::laws::growth::{found_only_grows, within_field};
use crate::laws::settled::{are_plain, are_settled, plain_selections_stay, unreported_is_settled};
use crate::model::{
    any_document_replaces, document_scope, nothing_found, visit, visit_all, visit_fragment,
    visit_fragments, visit_operation, visit_operations, visit_program, Env, MatchesView, Progress,
    Scope,
};
use crate::named::lemma_first_named;
use crate::tables::NoInlineFragments;
use crate::text::views;
use crate::transform::{may_end, may_return, program_outcome, Transformed};

verus! {

/// Whether the uses of a fragment are the same.
pub open spec fn same_uses(before: Progress, after: Progress, fragment: Seq<char>) -> bool {
    &&& before.no_inline.contains_key(fragment) == after.no_inline.contains_key(fragment)
    &&& before.no_inline.contains_key(fragment) ==> before.no_inline[fragment] == after.no_inline[fragment]
}

/// Only fragments for which the feature is on are kept apart.
pub proof fn only_flagged_fragments_are_kept_apart(
    env: Env,
    scope: Scope,
    progress: Progress,
    selections: Seq<SelectionView>,
    fragment: Seq<char>,
)
    requires
        !env.no_inline_flag.spec_is_enabled_for(fragment),
    ensures
        visit_all(env, scope, progress, selections) matches Some((found, _)) ==> same_uses(
            progress,
            found,
            fragment,
        ),
    decreases selections,
{
    if selections.len() > 0 {
        lemma_only_flagged(env, scope, progress, selections[0], fragment);
        if let Some((found, _)) = visit(env, scope, progress, selections[0]) {
            only_flagged_fragments_are_kept_apart(env, scope, found, selections.drop_first(), fragment);
        }
    }
}

/// Only fragments for which the feature is on are kept apart on account of a selection.
proof fn lemma_only_flagged(
    env: Env,
    scope: Scope,
    progress: Progress,
    selection: SelectionView,
    fragment: Seq<char>,
)
    requires
        !env.no_inline_flag.spec_is_enabled_for(fragment),
    ensures
        visit(env, scope, progress, selection) matches Some((found, _)) ==> same_uses(
            progress,
            found,
            fragment,
        ),
    decreases selection,
{
    match selection {
        SelectionView::FragmentSpread(spread) => {
            lemma_first_named(env.program.fragments, spread.fragment.item);
        },
        SelectionView::ScalarField(_) => {},
        SelectionView::InlineFragment(inline) => {
            only_flagged_fragments_are_kept_apart(
                env,
                scope.in_fragment(inline),
                progress,
                inline.selections,
                fragment,
            );
        },
        SelectionView::Condition(condition) => {
            only_flagged_fragments_are_kept_apart(env, scope, progress, condition.selections, fragment);
        },
        SelectionView::LinkedField(field) => {
            if let Some(inner) = within_field(env, scope, field) {
                only_flagged_fragments_are_kept_apart(env, inner, progress, field.selections, fragment);
            }
        },
    }
}

/// Operations lose nothing of what has been reported, use no fragment for which the feature is
/// off, and stay what they are apart from what they select.
pub proof fn operations_stay(env: Env, progress: Progress, operations: Seq<OperationView>)
    ensures
        visit_operations(env, progress, operations) matches Some((found, next)) ==> {
            &&& progress.errors.is_prefix_of(found.errors)
            &&& forall|fragment: Seq<char>|
                !env.no_inline_flag.spec_is_enabled_for(fragment) ==> #[trigger] same_uses(
                    progress,
                    found,
                    fragment,
                )
            &&& next.len() == operations.len()
            &&& forall|i: int|
                0 <= i < operations.len() ==> next[i] == (OperationView {
                    selections: next[i].selections,
                    ..#[trigger] operations[i]
                })
        },
    decreases operations.len(),
{
    if operations.len() > 0 {
        let operation = operations[0];
        let scope = document_scope(DocumentNameView::Operation(operation.name.item), operation.type_);
        found_only_grows(env, scope, progress.fresh(), operation.selections);
        if let Some((found, first)) = visit_operation(env, progress, operation) {
            operations_stay(env, found, operations.drop_first());
            if let Some((all_found, rest)) = visit_operations(env, found, operations.drop_first()) {
                let next = seq![first] + rest;
                assert forall|i: int| 0 <= i < operations.len() implies next[i] == (OperationView {
                    selections: next[i].selections,
                    ..#[trigger] operations[i]
                }) by {
                    if i > 0 {
                        assert(operations.drop_first()[i - 1] == operations[i]);
                    }
                }
                assert forall|fragment: Seq<char>|
                    !env.no_inline_flag.spec_is_enabled_for(fragment) implies #[trigger] same_uses(
                    progress,
                    all_found,
                    fragment,
                ) by {
                    only_flagged_fragments_are_kept_apart(
                        env,
                        scope,
                        progress.fresh(),
                        operation.selections,
                        fragment,
                    );
                    assert(same_uses(found, all_found, fragment));
                }
            }
        }
    }
}

/// Fragments lose nothing of what has been reported, use no fragment for which the feature is
/// off, and stay what they are apart from what they select.
pub proof fn fragments_stay(env: Env, progress: Progress, fragments: Seq<FragmentView>)
    ensures
        visit_fragments(env, progress, fragments) matches Some((found, next)) ==> {
            &&& progress.errors.is_prefix_of(found.errors)
            &&& forall|fragment: Seq<char>|
                !env.no_inline_flag.spec_is_enabled_for(fragment) ==> #[trigger] same_uses(
                    progress,
                    found,
                    fragment,
                )
            &&& next.len() == fragments.len()
            &&& forall|i: int|
                0 <= i < fragments.len() ==> next[i] == (FragmentView {
                    selections: next[i].selections,
                    ..#[trigger] fragments[i]
                })
        },
    decreases fragments.len(),
{
    if fragments.len() > 0 {
        let definition = fragments[0];
        let scope = document_scope(
            DocumentNameView::Fragment(definition.name.item),
            definition.type_condition,
        );
        found_only_grows(env, scope, progress.fresh(), definition.selections);
        if let Some((found, first)) = visit_fragment(env, progress, definition) {
            fragments_stay(env, found, fragments.drop_first());
            if let Some((all_found, rest)) = visit_fragments(env, found, fragments.drop_first()) {
                let next = seq![first] + rest;
                assert forall|i: int| 0 <= i < fragments.len() implies next[i] == (FragmentView {
                    selections: next[i].selections,
                    ..#[trigger] fragments[i]
                }) by {
                    if i > 0 {
                        assert(fragments.drop_first()[i - 1] == fragments[i]);
                    }
                }
                assert forall|fragment: Seq<char>|
                    !env.no_inline_flag.spec_is_enabled_for(fragment) implies #[trigger] same_uses(
                    progress,
                    all_found,
                    fragment,
                ) by {
                    only_flagged_fragments_are_kept_apart(
                        env,
                        scope,
                        progress.fresh(),
                        definition.selections,
                        fragment,
                    );
                    assert(same_uses(found, all_found, fragment));
                }
            }
        }
    }
}

/// A run keeps the schema and all documents, in their order, and changes only what the documents
/// select.
pub proof fn documents_stay(env: Env, progress: Progress)
    ensures
        visit_program(env, progress) matches Some((found, next)) ==> {
            &&& progress.errors.is_prefix_of(found.errors)
            &&& next.schema == env.program.schema
            &&& next.operations.len() == env.program.operations.len()
            &&& next.fragments.len() == env.program.fragments.len()
            &&& forall|i: int|
                0 <= i < next.operations.len() ==> next.operations[i] == (OperationView {
                    selections: next.operations[i].selections,
                    ..#[trigger] env.program.operations[i]
                })
            &&& forall|i: int|
                0 <= i < next.fragments.len() ==> next.fragments[i] == (FragmentView {
                    selections: next.fragments[i].selections,
                    ..#[trigger] env.program.fragments[i]
                })
        },
{
    operations_stay(env, progress, env.program.operations);
    if let Some((found, _)) = visit_operations(env, progress, env.program.operations) {
        fragments_stay(env, found, env.program.fragments);
    }
}

/// Where the feature is off, a run keeps no fragments apart.
pub proof fn nothing_is_kept_apart_where_off(env: Env, progress: Progress)
    requires
        env.no_inline_flag is Disabled,
        progress.no_inline == Map::<Seq<char>, Seq<DocumentNameView>>::empty(),
    ensures
        visit_program(env, progress) matches Some((found, _)) ==> found.no_inline == Map::<
            Seq<char>,
            Seq<DocumentNameView>,
        >::empty(),
{
    operations_stay(env, progress, env.program.operations);
    if let Some((found, _)) = visit_operations(env, progress, env.program.operations) {
        fragments_stay(env, found, env.program.fragments);
        if let Some((all_found, _)) = visit_fragments(env, found, env.program.fragments) {
            assert forall|fragment: Seq<char>| !#[trigger] all_found.no_inline.contains_key(fragment) by {
                assert(same_uses(progress, found, fragment));
                assert(same_uses(found, all_found, fragment));
            }
            assert(all_found.no_inline =~= Map::<Seq<char>, Seq<DocumentNameView>>::empty());
        }
    }
}

/// Where nothing is reported of operations, nothing is left to do for them.
proof fn lemma_unreported_operations(env: Env, progress: Progress, operations: Seq<OperationView>)
    ensures
        visit_operations(env, progress, operations) matches Some((found, next)) ==> found.errors
            == progress.errors ==> forall|i: int|
            0 <= i < next.len() ==> are_settled(env.program.schema, (#[trigger] next[i]).selections),
    decreases operations.len(),
{
    if operations.len() > 0 {
        let operation = operations[0];
        let scope = document_scope(DocumentNameView::Operation(operation.name.item), operation.type_);
        unreported_is_settled(env, scope, progress.fresh(), operation.selections);
        found_only_grows(env, scope, progress.fresh(), operation.selections);
        if let Some((found, first)) = visit_operation(env, progress, operation) {
            lemma_unreported_operations(env, found, operations.drop_first());
            operations_stay(env, found, operations.drop_first());
            if let Some((all_found, rest)) = visit_operations(env, found, operations.drop_first()) {
                if all_found.errors == progress.errors {
                    assert(found.errors =~= progress.errors);
                    let next = seq![first] + rest;
                    assert forall|i: int| 0 <= i < next.len() implies are_settled(
                        env.program.schema,
                        (#[trigger] next[i]).selections,
                    ) by {
                        if i > 0 {
                            assert(next[i] == rest[i - 1]);
                        }
                    }
                }
            }
        }
    }
}

/// Where nothing is reported of fragments, nothing is left to do for them.
proof fn lemma_unreported_fragments(env: Env, progress: Progress, fragments: Seq<FragmentView>)
    ensures
        visit_fragments(env, progress, fragments) matches Some((found, next)) ==> found.errors
            == progress.errors ==> forall|i: int|
            0 <= i < next.len() ==> are_settled(env.program.schema, (#[trigger] next[i]).selections),
    decreases fragments.len(),
{
    if fragments.len() > 0 {
        let definition = fragments[0];
        let scope = document_scope(
            DocumentNameView::Fragment(definition.name.item),
            definition.type_condition,
        );
        unreported_is_settled(env, scope, progress.fresh(), definition.selections);
        found_only_grows(env, scope, progress.fresh(), definition.selections);
        if let Some((found, first)) = visit_fragment(env, progress, definition) {
            lemma_unreported_fragments(env, found, fragments.drop_first());
            fragments_stay(env, found, fragments.drop_first());
            if let Some((all_found, rest)) = visit_fragments(env, found, fragments.drop_first()) {
                if all_found.errors == progress.errors {
                    assert(found.errors =~= progress.errors);
                    let next = seq![first] + rest;
                    assert forall|i: int| 0 <= i < next.len() implies are_settled(
                        env.program.schema,
                        (#[trigger] next[i]).selections,
                    ) by {
                        if i > 0 {
                            assert(next[i] == rest[i - 1]);
                        }
                    }
                }
            }
        }
    }
}

/// Where a run reports nothing, nothing is left to do in any document: all `@module` spreads have
/// been replaced, and all `@match` directives have become arguments, but for those that only give
/// a key.
pub proof fn unreported_documents_are_settled(env: Env, progress: Progress)
    ensures
        visit_program(env, progress) matches Some((found, next)) ==> found.errors == progress.errors ==> {
            &&& forall|i: int|
                0 <= i < next.operations.len() ==> are_settled(
                    env.program.schema,
                    (#[trigger] next.operations[i]).selections,
                )
            &&& forall|i: int|
                0 <= i < next.fragments.len() ==> are_settled(
                    env.program.schema,
                    (#[trigger] next.fragments[i]).selections,
                )
        },
{
    lemma_unreported_operations(env, progress, env.program.operations);
    operations_stay(env, progress, env.program.operations);
    if let Some((found, _)) = visit_operations(env, progress, env.program.operations) {
        lemma_unreported_fragments(env, found, env.program.fragments);
        fragments_stay(env, found, env.program.fragments);
        if let Some((all_found, _)) = visit_fragments(env, found, env.program.fragments) {
            if all_found.errors == progress.errors {
                assert(found.errors =~= progress.errors);
            }
        }
    }
}

/// Plain operations stay.
proof fn lemma_plain_operations(env: Env, progress: Progress, operations: Seq<OperationView>)
    requires
        progress.matches == Map::<Seq<Seq<char>>, MatchesView>::empty(),
        forall|i: int|
            0 <= i < operations.len() ==> are_plain(
                env.program.schema,
                (#[trigger] operations[i]).selections,
            ),
    ensures
        visit_operations(env, progress, operations) == Some((progress, operations)),
    decreases operations.len(),
{
    if operations.len() > 0 {
        let operation = operations[0];
        let scope = document_scope(DocumentNameView::Operation(operation.name.item), operation.type_);
        plain_selections_stay(env, scope, progress.fresh(), operation.selections);
        assert forall|i: int| 0 <= i < operations.drop_first().len() implies are_plain(
            env.program.schema,
            (#[trigger] operations.drop_first()[i]).selections,
        ) by {
            assert(operations.drop_first()[i] == operations[i + 1]);
        }
        lemma_plain_operations(env, progress, operations.drop_first());
        assert(seq![operation] + operations.drop_first() =~= operations);
    } else {
        assert(operations =~= Seq::empty());
    }
}

/// Plain fragments stay.
proof fn lemma_plain_fragments(env: Env, progress: Progress, fragments: Seq<FragmentView>)
    requires
        progress.matches == Map::<Seq<Seq<char>>, MatchesView>::empty(),
        forall|i: int|
            0 <= i < fragments.len() ==> are_plain(
                env.program.schema,
                (#[trigger] fragments[i]).selections,
            ),
    ensures
        visit_fragments(env, progress, fragments) == Some((progress, fragments)),
    decreases fragments.len(),
{
    if fragments.len() > 0 {
        let definition = fragments[0];
        let scope = document_scope(
            DocumentNameView::Fragment(definition.name.item),
            definition.type_condition,
        );
        plain_selections_stay(env, scope, progress.fresh(), definition.selections);
        assert forall|i: int| 0 <= i < fragments.drop_first().len() implies are_plain(
            env.program.schema,
            (#[trigger] fragments.drop_first()[i]).selections,
        ) by {
            assert(fragments.drop_first()[i] == fragments[i + 1]);
        }
        lemma_plain_fragments(env, progress, fragments.drop_first());
        assert(seq![definition] + fragments.drop_first() =~= fragments);
    } else {
        assert(fragments =~= Seq::empty());
    }
}

/// A program whose documents have nothing to do with `@match` and `@module` stays as it is, and
/// nothing is found in it.
pub proof fn plain_program_stays(env: Env)
    requires
        forall|i: int|
            0 <= i < env.program.operations.len() ==> are_plain(
                env.program.schema,
                (#[trigger] env.program.operations[i]).selections,
            ),
        forall|i: int|
            0 <= i < env.program.fragments.len() ==> are_plain(
                env.program.schema,
                (#[trigger] env.program.fragments[i]).selections,
            ),
    ensures
        visit_program(env, nothing_found()) == Some((nothing_found(), env.program)),
{
    lemma_plain_operations(env, nothing_found(), env.program.operations);
    lemma_plain_fragments(env, nothing_found(), env.program.fragments);
}

/// Where no fragment is kept apart, the result is settled by what the documents come to: the
/// errors, if anything is reported, or else what became of the documents.
pub proof fn result_is_exact_where_nothing_is_kept_apart<V, A>(
    env: Env,
    program: Program,
    validate: V,
    attach: A,
    result: Result<Program, Vec<Diagnostic>>,
) where
    V: Fn(&NoInlineFragments, &Program) -> Result<(), Vec<Diagnostic>>,
    A: Fn(NoInlineFragments, Program) -> Program,

    requires
        visit_program(env, nothing_found()) matches Some((found, next)) && {
            &&& found.no_inline == Map::<Seq<char>, Seq<DocumentNameView>>::empty()
            &&& may_return(env, program, validate, attach, found, next, result)
        },
    ensures
        ({
            let (found, next) = visit_program(env, nothing_found())->0;
            match result {
                Ok(last) => found.errors.len() == 0 && last@ == next,
                Err(errors) => found.errors.len() > 0 && views(errors@) == found.errors,
            }
        }),
{
}

/// Where the feature is off, the result is settled by what the documents come to.
pub proof fn result_is_exact_where_off<V, A>(
    env: Env,
    program: Program,
    validate: V,
    attach: A,
    result: Result<Program, Vec<Diagnostic>>,
) where
    V: Fn(&NoInlineFragments, &Program) -> Result<(), Vec<Diagnostic>>,
    A: Fn(NoInlineFragments, Program) -> Program,

    requires
        env.no_inline_flag is Disabled,
        visit_program(env, nothing_found()) matches Some((found, next)) && may_return(
            env,
            program,
            validate,
            attach,
            found,
            next,
            result,
        ),
    ensures
        ({
            let (found, next) = visit_program(env, nothing_found())->0;
            match result {
                Ok(last) => found.errors.len() == 0 && last@ == next,
                Err(errors) => found.errors.len() > 0 && views(errors@) == found.errors,
            }
        }),
{
    nothing_is_kept_apart_where_off(env, nothing_found());
    result_is_exact_where_nothing_is_kept_apart(env, program, validate, attach, result);
}

/// Whether two programs select the same: they have the same schema, and documents that select the
/// same in the same order.
pub open spec fn selects_the_same(first: ProgramView, second: ProgramView) -> bool {
    &&& second.schema == first.schema
    &&& second.operations.len() == first.operations.len()
    &&& second.fragments.len() == first.fragments.len()
    &&& forall|i: int|
        0 <= i < second.operations.len() ==> (#[trigger] second.operations[i]).selections
            == first.operations[i].selections
    &&& forall|i: int|
        0 <= i < second.fragments.len() ==> (#[trigger] second.fragments[i]).selections
            == first.fragments[i].selections
}

/// Whether a run may return `last`, and what its documents select is what the run made of them:
/// either no fragment is kept apart, or `attach` leaves alone what documents select.
pub open spec fn returns_selections<V, A>(
    env: Env,
    program: Program,
    validate: V,
    attach: A,
    last: Program,
) -> bool where
    V: Fn(&NoInlineFragments, &Program) -> Result<(), Vec<Diagnostic>>,
    A: Fn(NoInlineFragments, Program) -> Program,
 {
    visit_program(env, nothing_found()) matches Some((found, next)) && {
        &&& may_return(env, program, validate, attach, found, next, Ok(last))
        &&& found.no_inline == Map::<Seq<char>, Seq<DocumentNameView>>::empty() || forall|
            fragments: NoInlineFragments,
            before: Program,
            after: Program,
        | #[trigger]
            attach.ensures((fragments, before), after) ==> selects_the_same(before@, after@)
    }
}

/// What the documents of a returned program select is what the run made of them, and nothing was
/// reported.
pub proof fn returned_documents_are_the_visited_ones<V, A>(
    env: Env,
    program: Program,
    validate: V,
    attach: A,
    last: Program,
) where
    V: Fn(&NoInlineFragments, &Program) -> Result<(), Vec<Diagnostic>>,
    A: Fn(NoInlineFragments, Program) -> Program,

    requires
        returns_selections(env, program, validate, attach, last),
    ensures
        ({
            let (found, next) = visit_program(env, nothing_found())->0;
            &&& found.errors.len() == 0
            &&& selects_the_same(next, last@)
        }),
{
    let (found, next) = visit_program(env, nothing_found())->0;
    let replaced = any_document_replaces(env, nothing_found());
    let (errors, ended) = choose|errors: Seq<DiagnosticView>, ended: Transformed<Program>|
        {
            &&& #[trigger] may_end(program, validate, attach, found, next, replaced, errors, ended)
            &&& errors.len() == 0 && last@ == program_outcome(ended, program@)
        };
    assert(found.errors.len() <= errors.len());
    assert(last@ == next || selects_the_same(next, last@));
}

/// Success leaves nothing to do: in no document of the result does a spread carry `@module`, and a
/// field carries `@match` only where it cannot list the supported types and `@match` gives a key.
/// Where fragments are kept apart, that is so if `attach` leaves alone what documents select.
pub proof fn success_leaves_nothing_to_do<V, A>(
    env: Env,
    program: Program,
    validate: V,
    attach: A,
    last: Program,
) where
    V: Fn(&NoInlineFragments, &Program) -> Result<(), Vec<Diagnostic>>,
    A: Fn(NoInlineFragments, Program) -> Program,

    requires
        returns_selections(env, program, validate, attach, last),
    ensures
        last@.schema == env.program.schema,
        forall|i: int|
            0 <= i < last@.operations.len() ==> are_settled(
                last@.schema,
                (#[trigger] last@.operations[i]).selections,
            ),
        forall|i: int|
            0 <= i < last@.fragments.len() ==> are_settled(
                last@.schema,
                (#[trigger] last@.fragments[i]).selections,
            ),
{
    let (found, next) = visit_program(env, nothing_found())->0;
    returned_documents_are_the_visited_ones(env, program, validate, attach, last);
    unreported_documents_are_settled(env, nothing_found());
    documents_stay(env, nothing_found());
    assert(found.errors =~= nothing_found().errors);
    assert forall|i: int| 0 <= i < last@.operations.len() implies are_settled(
        last@.schema,
        (#[trigger] last@.operations[i]).selections,
    ) by {
        assert(are_settled(env.program.schema, next.operations[i].selections));
    }
    assert forall|i: int| 0 <= i < last@.fragments.len() implies are_settled(
        last@.schema,
        (#[trigger] last@.fragments[i]).selections,
    ) by {
        assert(are_settled(env.program.schema, next.fragments[i].selections));
    }
}

} // verus!
