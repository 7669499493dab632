//! The modules that the documents of a returned program load.

use vstd::prelude::*;

use crate::constants::PATH_SEPARATOR;
use crate::diagnostic::Diagnostic;
use crate::ir::{
    DocumentNameView, FragmentSpreadView, FragmentView, OperationView, Program, ProgramView, SelectionView,
};
use crate::laws::documents::{
    documents_stay, fragments_stay, operations_stay, returned_documents_are_the_visited_ones,
    returns_selections, success_leaves_nothing_to_do,
};
use crate::laws::growth::found_only_grows;
use crate::laws::modules::{
    any_loads, are_bare, modules_carry_the_document, one_module_per_type, one_path_per_key, LoadedModule,
};
use crate::laws::places::{
    every_spread_keeps_its_place, held, holds, is_module_around, lemma_module_of_a_document, stands,
};
use crate::laws::settled::{are_settled, is_settled};
use crate::laws::terms::{directive_is_found, has_directive};
use crate::model::{
    document_scope, fragment_scope, nothing_found, operation_scope, visit_all, visit_fragment,
    visit_fragments, visit_operation, visit_operations, visit_program, Env, Progress,
};
use crate::schema::{Schema, Type};
use crate::tables::NoInlineFragments;
use crate::text::extended;

verus! {

/// An operation or a fragment.
pub struct Document {
    pub name: DocumentNameView,
    pub type_: Type,
    pub selections: Seq<SelectionView>,
}

/// An operation as a document.
pub open spec fn operation_document(operation: OperationView) -> Document {
    Document {
        name: DocumentNameView::Operation(operation.name.item),
        type_: operation.type_,
        selections: operation.selections,
    }
}

/// A fragment as a document.
pub open spec fn fragment_document(fragment: FragmentView) -> Document {
    Document {
        name: DocumentNameView::Fragment(fragment.name.item),
        type_: fragment.type_condition,
        selections: fragment.selections,
    }
}

/// The documents of a program: first the operations, then the fragments.
pub open spec fn documents(program: ProgramView) -> Seq<Document> {
    Seq::new(
        program.operations.len() + program.fragments.len(),
        |i: int|
            if i < program.operations.len() {
                operation_document(program.operations[i])
            } else {
                fragment_document(program.fragments[i - program.operations.len()])
            },
    )
}

/// Whether a visit that began with `before` and found `own` made `next` of what a document selects.
pub open spec fn becomes(
    env: Env,
    document: Document,
    before: Progress,
    own: Progress,
    next: Seq<SelectionView>,
) -> bool {
    visit_all(
        env,
        document_scope(document.name, document.type_),
        before.fresh(),
        document.selections,
    ) == Some((own, next))
}

/// Whether every use of a fragment that is kept apart stays one.
pub open spec fn uses_grow(before: Progress, after: Progress) -> bool {
    forall|fragment: Seq<char>| #[trigger]
        before.no_inline.contains_key(fragment) ==> {
            &&& after.no_inline.contains_key(fragment)
            &&& before.no_inline[fragment].is_prefix_of(after.no_inline[fragment])
        }
}

/// Every use of a fragment that is kept apart stays one in the operations that follow.
proof fn lemma_uses_grow_in_operations(env: Env, progress: Progress, operations: Seq<OperationView>)
    ensures
        visit_operations(env, progress, operations) matches Some((found, _)) ==> uses_grow(progress, found),
    decreases operations.len(),
{
    if operations.len() > 0 {
        found_only_grows(env, operation_scope(operations[0]), progress.fresh(), operations[0].selections);
        if let Some((found, _)) = visit_operation(env, progress, operations[0]) {
            assert(uses_grow(progress, found)) by {
                assert(progress.fresh().no_inline == progress.no_inline);
            }
            lemma_uses_grow_in_operations(env, found, operations.drop_first());
            if let Some((all_found, _)) = visit_operations(env, found, operations.drop_first()) {
                lemma_uses_grow_on(progress, found, all_found);
            }
        }
    }
}

/// Every use of a fragment that is kept apart stays one in the fragments that follow.
proof fn lemma_uses_grow_in_fragments(env: Env, progress: Progress, fragments: Seq<FragmentView>)
    ensures
        visit_fragments(env, progress, fragments) matches Some((found, _)) ==> uses_grow(progress, found),
    decreases fragments.len(),
{
    if fragments.len() > 0 {
        found_only_grows(env, fragment_scope(fragments[0]), progress.fresh(), fragments[0].selections);
        if let Some((found, _)) = visit_fragment(env, progress, fragments[0]) {
            assert(uses_grow(progress, found)) by {
                assert(progress.fresh().no_inline == progress.no_inline);
            }
            lemma_uses_grow_in_fragments(env, found, fragments.drop_first());
            if let Some((all_found, _)) = visit_fragments(env, found, fragments.drop_first()) {
                lemma_uses_grow_on(progress, found, all_found);
            }
        }
    }
}

/// Growing twice is growing.
proof fn lemma_uses_grow_on(first: Progress, second: Progress, third: Progress)
    requires
        uses_grow(first, second),
        uses_grow(second, third),
    ensures
        uses_grow(first, third),
{
    assert forall|fragment: Seq<char>| #[trigger] first.no_inline.contains_key(fragment) implies {
        &&& third.no_inline.contains_key(fragment)
        &&& first.no_inline[fragment].is_prefix_of(third.no_inline[fragment])
    } by {
        assert(second.no_inline.contains_key(fragment));
    }
}

/// What an operation selects after a run came of a visit of it, and the uses that were found in it
/// stay.
proof fn lemma_operation_was_visited(env: Env, progress: Progress, operations: Seq<OperationView>, i: int)
    requires
        0 <= i < operations.len(),
        visit_operations(env, progress, operations) is Some,
    ensures
        ({
            let (found, next) = visit_operations(env, progress, operations)->0;
            exists|before: Progress, own: Progress| #[trigger]
                becomes(env, operation_document(operations[i]), before, own, next[i].selections)
                    && uses_grow(own, found)
        }),
    decreases operations.len(),
{
    let (own, first) = visit_operation(env, progress, operations[0])->0;
    let rest = operations.drop_first();
    let (found, others) = visit_operations(env, own, rest)->0;
    if i == 0 {
        lemma_uses_grow_in_operations(env, own, rest);
        assert(becomes(env, operation_document(operations[0]), progress, own, first.selections));
    } else {
        operations_stay(env, own, rest);
        lemma_operation_was_visited(env, own, rest, i - 1);
        assert((seq![first] + others)[i] == others[i - 1]);
    }
}

/// What a fragment selects after a run came of a visit of it, and the uses that were found in it
/// stay.
proof fn lemma_fragment_was_visited(env: Env, progress: Progress, fragments: Seq<FragmentView>, i: int)
    requires
        0 <= i < fragments.len(),
        visit_fragments(env, progress, fragments) is Some,
    ensures
        ({
            let (found, next) = visit_fragments(env, progress, fragments)->0;
            exists|before: Progress, own: Progress| #[trigger]
                becomes(env, fragment_document(fragments[i]), before, own, next[i].selections)
                    && uses_grow(own, found)
        }),
    decreases fragments.len(),
{
    let (own, first) = visit_fragment(env, progress, fragments[0])->0;
    let rest = fragments.drop_first();
    let (found, others) = visit_fragments(env, own, rest)->0;
    if i == 0 {
        lemma_uses_grow_in_fragments(env, own, rest);
        assert(becomes(env, fragment_document(fragments[0]), progress, own, first.selections));
    } else {
        fragments_stay(env, own, rest);
        lemma_fragment_was_visited(env, own, rest, i - 1);
        assert((seq![first] + others)[i] == others[i - 1]);
    }
}

/// What each document of a returned program selects came of a visit of that document, and the uses
/// that were found in it stay to the end of the run.
pub proof fn returned_document_was_visited<V, A>(
    env: Env,
    program: Program,
    validate: V,
    attach: A,
    last: Program,
    i: int,
) where
    V: Fn(&NoInlineFragments, &Program) -> Result<(), Vec<Diagnostic>>,
    A: Fn(NoInlineFragments, Program) -> Program,

    requires
        returns_selections(env, program, validate, attach, last),
        0 <= i < documents(env.program).len(),
    ensures
        documents(last@).len() == documents(env.program).len(),
        last@.schema == env.program.schema,
        exists|before: Progress, own: Progress| #[trigger]
            becomes(env, documents(env.program)[i], before, own, documents(last@)[i].selections)
                && uses_grow(own, (visit_program(env, nothing_found())->0).0),
{
    let operations = env.program.operations;
    let fragments = env.program.fragments;
    let (found, next) = visit_program(env, nothing_found())->0;
    let (first_found, _) = visit_operations(env, nothing_found(), operations)->0;
    returned_documents_are_the_visited_ones(env, program, validate, attach, last);
    documents_stay(env, nothing_found());
    if i < operations.len() {
        lemma_operation_was_visited(env, nothing_found(), operations, i);
        let (before, own) = choose|before: Progress, own: Progress| #[trigger]
            becomes(env, operation_document(operations[i]), before, own, next.operations[i].selections)
                && uses_grow(own, first_found);
        lemma_uses_grow_in_fragments(env, first_found, fragments);
        lemma_uses_grow_on(own, first_found, found);
        assert(last@.operations[i].selections == next.operations[i].selections);
        assert(becomes(env, documents(env.program)[i], before, own, documents(last@)[i].selections));
    } else {
        let j = i - operations.len();
        lemma_fragment_was_visited(env, first_found, fragments, j);
        let (before, own) = choose|before: Progress, own: Progress| #[trigger]
            becomes(env, fragment_document(fragments[j]), before, own, next.fragments[j].selections)
                && uses_grow(own, found);
        assert(last@.fragments[j].selections == next.fragments[j].selections);
        assert(becomes(env, documents(env.program)[i], before, own, documents(last@)[i].selections));
    }
}

/// In each document of a returned program, all modules with a given key are loaded at a single
/// path, and all modules that are loaded at one path have one key.
pub proof fn one_path_per_key_in_the_result<V, A>(
    env: Env,
    program: Program,
    validate: V,
    attach: A,
    last: Program,
    i: int,
    first: LoadedModule,
    second: LoadedModule,
) where
    V: Fn(&NoInlineFragments, &Program) -> Result<(), Vec<Diagnostic>>,
    A: Fn(NoInlineFragments, Program) -> Program,

    requires
        returns_selections(env, program, validate, attach, last),
        0 <= i < documents(env.program).len(),
        are_bare(documents(env.program)[i].selections),
        any_loads(last@.schema, Seq::empty(), documents(last@)[i].selections, first),
        any_loads(last@.schema, Seq::empty(), documents(last@)[i].selections, second),
    ensures
        first.metadata.key == second.metadata.key <==> first.path == second.path,
{
    let document = documents(env.program)[i];
    returned_document_was_visited(env, program, validate, attach, last, i);
    let (before, own) = choose|before: Progress, own: Progress| #[trigger]
        becomes(env, document, before, own, documents(last@)[i].selections) && uses_grow(
            own,
            (visit_program(env, nothing_found())->0).0,
        );
    one_path_per_key(env, document.name, document.type_, before, document.selections, first, second);
}

/// In each document of a returned program, the modules that are loaded for one type at one path are
/// the same: they spread the same fragment and name the same module.
pub proof fn one_module_per_type_in_the_result<V, A>(
    env: Env,
    program: Program,
    validate: V,
    attach: A,
    last: Program,
    i: int,
    first: LoadedModule,
    second: LoadedModule,
) where
    V: Fn(&NoInlineFragments, &Program) -> Result<(), Vec<Diagnostic>>,
    A: Fn(NoInlineFragments, Program) -> Program,

    requires
        returns_selections(env, program, validate, attach, last),
        0 <= i < documents(env.program).len(),
        are_bare(documents(env.program)[i].selections),
        any_loads(last@.schema, Seq::empty(), documents(last@)[i].selections, first),
        any_loads(last@.schema, Seq::empty(), documents(last@)[i].selections, second),
        first.path == second.path,
        first.type_ == second.type_,
    ensures
        first.metadata.fragment_name == second.metadata.fragment_name,
        first.metadata.module_name == second.metadata.module_name,
{
    let document = documents(env.program)[i];
    returned_document_was_visited(env, program, validate, attach, last, i);
    let (before, own) = choose|before: Progress, own: Progress| #[trigger]
        becomes(env, document, before, own, documents(last@)[i].selections) && uses_grow(
            own,
            (visit_program(env, nothing_found())->0).0,
        );
    one_module_per_type(env, document.name, document.type_, before, document.selections, first, second);
}

/// The modules that a document of a returned program loads carry the name of that document: the key
/// begins with it, and the identifier is made of it and the path. A module is loaded for the type
/// of the fragment that it spreads, and says whether that fragment is kept apart; if so, the
/// document is among those that were found to use it.
pub proof fn modules_carry_the_document_in_the_result<V, A>(
    env: Env,
    program: Program,
    validate: V,
    attach: A,
    last: Program,
    i: int,
    module: LoadedModule,
) where
    V: Fn(&NoInlineFragments, &Program) -> Result<(), Vec<Diagnostic>>,
    A: Fn(NoInlineFragments, Program) -> Program,

    requires
        returns_selections(env, program, validate, attach, last),
        0 <= i < documents(env.program).len(),
        are_bare(documents(env.program)[i].selections),
        any_loads(last@.schema, Seq::empty(), documents(last@)[i].selections, module),
    ensures
        ({
            let name = documents(env.program)[i].name;
            let (found, _) = visit_program(env, nothing_found())->0;
            &&& name.text().is_prefix_of(module.metadata.key)
            &&& module.metadata.module_id == extended(name.text(), module.path, PATH_SEPARATOR@)
            &&& module.metadata.source_document_name == name
            &&& env.program.fragment(module.metadata.fragment_name) matches Some(fragment) && {
                &&& module.type_ == Some(fragment.type_condition)
                &&& module.metadata.fragment_source_location == fragment.name.location
            }
            &&& module.metadata.no_inline == env.no_inline_flag.spec_is_enabled_for(
                module.metadata.fragment_name,
            )
            &&& module.metadata.no_inline ==> {
                &&& found.no_inline.contains_key(module.metadata.fragment_name)
                &&& found.no_inline[module.metadata.fragment_name].contains(name)
            }
        }),
{
    let document = documents(env.program)[i];
    let (found, _) = visit_program(env, nothing_found())->0;
    returned_document_was_visited(env, program, validate, attach, last, i);
    let (before, own) = choose|before: Progress, own: Progress| #[trigger]
        becomes(env, document, before, own, documents(last@)[i].selections) && uses_grow(own, found);
    modules_carry_the_document(env, document.name, document.type_, before, document.selections, module);
    if module.metadata.no_inline {
        let fragment = module.metadata.fragment_name;
        let users = own.no_inline[fragment];
        let j = choose|j: int| 0 <= j < users.len() && users[j] == document.name;
        assert(found.no_inline[fragment][j] == document.name);
    }
}

/// Nothing is left to do for what stands in settled selections.
proof fn lemma_settled_inside(
    schema: Schema,
    before: Seq<SelectionView>,
    after: Seq<SelectionView>,
    around: Seq<SelectionView>,
    spread: FragmentSpreadView,
    next: SelectionView,
)
    requires
        are_settled(schema, after),
        stands(before, after, around, spread, next),
    ensures
        is_settled(schema, next),
    decreases around.len(),
{
    if around.len() == 0 {
        let i = choose|i: int|
            {
                &&& 0 <= i < before.len()
                &&& i < after.len()
                &&& #[trigger] before[i] == SelectionView::FragmentSpread(spread)
                &&& after[i] == next
            };
        lemma_settled_at(schema, after, i);
    } else {
        let inside = around.drop_first();
        let i = choose|i: int|
            {
                &&& 0 <= i < before.len()
                &&& i < after.len()
                &&& #[trigger] before[i] == around[0]
                &&& stands(held(before[i]), held(after[i]), inside, spread, next)
            };
        lemma_settled_at(schema, after, i);
        assert(are_settled(schema, held(after[i])));
        lemma_settled_inside(schema, held(before[i]), held(after[i]), inside, spread, next);
    }
}

/// Nothing is left to do for each of settled selections.
proof fn lemma_settled_at(schema: Schema, selections: Seq<SelectionView>, i: int)
    requires
        are_settled(schema, selections),
        0 <= i < selections.len(),
    ensures
        is_settled(schema, selections[i]),
    decreases selections.len(),
{
    if i > 0 {
        lemma_settled_at(schema, selections.drop_first(), i - 1);
    }
}

/// Every `@module` spread of every document becomes its module in a returned program: whatever stands
/// around it, it is followed in its place by the module whose key and identifier are made of the
/// document's name and of what stands around.
pub proof fn every_module_spread_becomes_its_module<V, A>(
    env: Env,
    program: Program,
    validate: V,
    attach: A,
    last: Program,
    i: int,
    around: Seq<SelectionView>,
    spread: FragmentSpreadView,
) where
    V: Fn(&NoInlineFragments, &Program) -> Result<(), Vec<Diagnostic>>,
    A: Fn(NoInlineFragments, Program) -> Program,

    requires
        returns_selections(env, program, validate, attach, last),
        0 <= i < documents(env.program).len(),
        holds(documents(env.program)[i].selections, around, spread),
        has_directive(spread.directives, "module"@),
    ensures
        exists|next: SelectionView| #[trigger]
            stands(
                documents(env.program)[i].selections,
                documents(last@)[i].selections,
                around,
                spread,
                next,
            ) && is_module_around(
                env,
                documents(env.program)[i].name,
                documents(env.program)[i].type_,
                around,
                spread,
                next,
            ),
{
    let document = documents(env.program)[i];
    let after = documents(last@)[i].selections;
    let (found, _) = visit_program(env, nothing_found())->0;
    returned_document_was_visited(env, program, validate, attach, last, i);
    let (before, own) = choose|before: Progress, own: Progress| #[trigger]
        becomes(env, document, before, own, after) && uses_grow(own, found);
    let scope = document_scope(document.name, document.type_);
    every_spread_keeps_its_place(env, scope, before.fresh(), document.selections, around, spread);
    let next = choose|next: SelectionView| #[trigger]
        stands(document.selections, after, around, spread, next);
    success_leaves_nothing_to_do(env, program, validate, attach, last);
    if i < last@.operations.len() {
        assert(are_settled(last@.schema, last@.operations[i].selections));
    } else {
        assert(are_settled(
            last@.schema,
            last@.fragments[i - last@.operations.len()].selections,
        ));
    }
    lemma_settled_inside(last@.schema, document.selections, after, around, spread, next);
    directive_is_found(spread.directives, "module"@);
    lemma_module_of_a_document(
        env,
        before,
        document.name,
        document.type_,
        document.selections,
        around,
        spread,
        next,
    );
}

} // verus!
