//! Where `@module` spreads stand in documents, and what that means for the modules they become.

use vstd::prelude::*;

use crate::ir::{
    alias_metadata, ArgumentView, DirectiveView, DocumentNameView, FragmentSpreadView, FragmentView,
    InlineFragmentView, LinkedFieldView, OperationView, SelectionView,
};
use crate::laws::growth::within_field;
use crate::laws::replaced::{is_module, key_at, name_text, replaced_spread_is_a_module};
use crate::laws::terms::{
    alias_is_found, argument_is_found, directive_is_found, has_alias, is_alias, is_first_argument,
    is_first_directive, literal, marked,
};
use crate::location::WithLocation;
use crate::model::{
    document_scope, match_key, path_items, visit, visit_all, visit_fragment, visit_operation, Env,
    Progress, Scope,
};
use crate::named::first_named;
use crate::schema::{Schema, Type, TypeReference};

verus! {

/// What a selection holds.
pub open spec fn held(selection: SelectionView) -> Seq<SelectionView> {
    match selection {
        SelectionView::FragmentSpread(_) => Seq::empty(),
        SelectionView::ScalarField(_) => Seq::empty(),
        SelectionView::InlineFragment(fragment) => fragment.selections,
        SelectionView::LinkedField(field) => field.selections,
        SelectionView::Condition(condition) => condition.selections,
    }
}

/// Whether `before` holds a spread inside of the selections `around`, from the outermost, and `after`
/// holds `next` in its place.
pub open spec fn stands(
    before: Seq<SelectionView>,
    after: Seq<SelectionView>,
    around: Seq<SelectionView>,
    spread: FragmentSpreadView,
    next: SelectionView,
) -> bool
    decreases around.len(),
{
    if around.len() == 0 {
        exists|i: int|
            {
                &&& 0 <= i < before.len()
                &&& i < after.len()
                &&& #[trigger] before[i] == SelectionView::FragmentSpread(spread)
                &&& after[i] == next
            }
    } else {
        exists|i: int|
            {
                &&& 0 <= i < before.len()
                &&& i < after.len()
                &&& #[trigger] before[i] == around[0]
                &&& stands(held(before[i]), held(after[i]), around.drop_first(), spread, next)
            }
    }
}

/// The closest field of the selections around.
pub open spec fn closest_field(around: Seq<SelectionView>) -> Option<LinkedFieldView>
    decreases around.len(),
{
    if around.len() == 0 {
        None
    } else {
        match around.last() {
            SelectionView::LinkedField(field) => Some(field),
            _ => closest_field(around.drop_last()),
        }
    }
}

/// Whether the first `@match` directive of a field gives a key in its first `key` argument.
pub open spec fn gives_key(field: LinkedFieldView, key: Seq<char>) -> bool {
    exists|directive: DirectiveView, argument: ArgumentView|
        {
            &&& #[trigger] is_first_directive(field.directives, "match"@, directive)
            &&& #[trigger] is_first_argument(directive.arguments, "key"@, argument)
            &&& argument.value.item == literal(key)
        }
}

/// The key that the closest field around gives, if it gives one.
pub open spec fn key_around(around: Seq<SelectionView>) -> Option<Seq<char>> {
    match closest_field(around) {
        None => None,
        Some(field) => if exists|key: Seq<char>| gives_key(field, key) {
            Some(choose|key: Seq<char>| gives_key(field, key))
        } else {
            None
        },
    }
}

/// The alias of an inline fragment.
pub open spec fn alias_of(fragment: InlineFragmentView) -> WithLocation<Seq<char>> {
    choose|alias: WithLocation<Seq<char>>| is_alias(fragment.directives, alias)
}

/// The aliases of the inline fragments around, from the outermost.
pub open spec fn aliases_around(around: Seq<SelectionView>) -> Seq<Seq<char>>
    decreases around.len(),
{
    if around.len() == 0 {
        Seq::empty()
    } else {
        let outer = aliases_around(around.drop_last());
        match around.last() {
            SelectionView::InlineFragment(fragment) if has_alias(fragment.directives) => outer.push(
                alias_of(fragment).item,
            ),
            _ => outer,
        }
    }
}

/// The steps of the path that the selections around make up: the aliases of inline fragments, and the
/// aliases of fields or else their names.
pub open spec fn steps_around(schema: Schema, around: Seq<SelectionView>) -> Seq<Seq<char>>
    decreases around.len(),
{
    if around.len() == 0 {
        Seq::empty()
    } else {
        let outer = steps_around(schema, around.drop_last());
        match around.last() {
            SelectionView::InlineFragment(fragment) if has_alias(fragment.directives) => outer.push(
                alias_of(fragment).item,
            ),
            SelectionView::LinkedField(field) => outer.push(
                match field.alias {
                    Some(alias) => alias.item,
                    None => schema.fields@[field.definition.item as int].name.item@,
                },
            ),
            _ => outer,
        }
    }
}

/// The type that a reference names, in lists or not.
pub open spec fn named_type(reference: TypeReference) -> Type
    decreases reference,
{
    match reference {
        TypeReference::Named(type_) => type_,
        TypeReference::NonNull(of) => named_type(*of),
        TypeReference::List(of) => named_type(*of),
    }
}

/// The type that selections stand on: that of the closest field around or of the closest inline
/// fragment with a type condition, or else that of the document.
pub open spec fn type_around(schema: Schema, type_: Type, around: Seq<SelectionView>) -> Type
    decreases around.len(),
{
    if around.len() == 0 {
        type_
    } else {
        match around.last() {
            SelectionView::LinkedField(field) => named_type(
                schema.fields@[field.definition.item as int].type_,
            ),
            SelectionView::InlineFragment(fragment) if fragment.type_condition is Some => {
                fragment.type_condition->0
            },
            _ => type_around(schema, type_, around.drop_last()),
        }
    }
}

/// A reference is found to name the type that it names.
pub proof fn named_type_is_found(reference: TypeReference)
    ensures
        reference.spec_inner() == named_type(reference),
    decreases reference,
{
    match reference {
        TypeReference::Named(_) => {},
        TypeReference::NonNull(of) => {
            named_type_is_found(*of);
        },
        TypeReference::List(of) => {
            named_type_is_found(*of);
        },
    }
}

/// Whether a scope is where the selections inside of `around` stand in a document.
pub open spec fn is_inside(
    schema: Schema,
    scope: Scope,
    document: DocumentNameView,
    type_: Type,
    around: Seq<SelectionView>,
) -> bool {
    &&& scope.document == document
    &&& scope.parent_type == type_around(schema, type_, around)
    &&& scope.key == key_around(around)
    &&& path_items(scope.path) == steps_around(schema, around)
    &&& scope.aliases == aliases_around(around)
}

/// Where nothing changes, a spread stays.
proof fn lemma_stays(
    selections: Seq<SelectionView>,
    around: Seq<SelectionView>,
    spread: FragmentSpreadView,
    next: SelectionView,
)
    requires
        stands(selections, selections, around, spread, next),
    ensures
        next == SelectionView::FragmentSpread(spread),
    decreases around.len(),
{
    if around.len() > 0 {
        let i = choose|i: int|
            {
                &&& 0 <= i < selections.len()
                &&& #[trigger] selections[i] == around[0]
                &&& stands(held(selections[i]), held(selections[i]), around.drop_first(), spread, next)
            };
        lemma_stays(held(selections[i]), around.drop_first(), spread, next);
    }
}

/// What comes of each selection comes of a visit of it.
pub proof fn each_selection_is_visited(
    env: Env,
    scope: Scope,
    progress: Progress,
    selections: Seq<SelectionView>,
    i: int,
)
    requires
        0 <= i < selections.len(),
        visit_all(env, scope, progress, selections) is Some,
    ensures
        ({
            let (found, next) = visit_all(env, scope, progress, selections)->0;
            &&& next.len() == selections.len()
            &&& exists|before: Progress|
                (#[trigger] visit(env, scope, before, selections[i])) is Some && (visit(
                    env,
                    scope,
                    before,
                    selections[i],
                )->0).1 == next[i]
        }),
    decreases selections.len(),
{
    let (first_found, first) = visit(env, scope, progress, selections[0])->0;
    let rest = selections.drop_first();
    let (found, others) = visit_all(env, scope, first_found, rest)->0;
    crate::laws::growth::places_are_kept(env, scope, first_found, rest);
    let next = seq![first] + others;
    if i > 0 {
        each_selection_is_visited(env, scope, first_found, rest, i - 1);
        assert(rest[i - 1] == selections[i]);
        assert(next[i] == others[i - 1]);
    } else {
        assert(next[0] == first);
    }
}

/// The key that is found for a field is the one that its `@match` gives.
proof fn lemma_given_key(document: DocumentNameView, field: LinkedFieldView)
    ensures
        match first_named(field.directives, "match"@) {
            None => forall|key: Seq<char>| !gives_key(field, key),
            Some(directive) => match match_key(document, directive) {
                Err(_) => true,
                Ok(None) => forall|key: Seq<char>| !gives_key(field, key),
                Ok(Some(given)) => forall|key: Seq<char>| gives_key(field, key) <==> key == given,
            },
        },
{
    directive_is_found(field.directives, "match"@);
    if let Some(directive) = first_named(field.directives, "match"@) {
        argument_is_found(directive.arguments, "key"@);
        if let Ok(Some(given)) = match_key(document, directive) {
            let argument = first_named(directive.arguments, "key"@)->0;
            assert(argument.value.item == literal(given));
            assert(gives_key(field, given));
            assert forall|key: Seq<char>| gives_key(field, key) implies key == given by {
                let (other, another) = choose|other: DirectiveView, another: ArgumentView|
                    {
                        &&& #[trigger] is_first_directive(field.directives, "match"@, other)
                        &&& #[trigger] is_first_argument(other.arguments, "key"@, another)
                        &&& another.value.item == literal(key)
                    };
                assert(other == directive);
                assert(another == argument);
                assert(literal(key) == literal(given));
            }
        }
    }
}

/// A field hands down a scope: its type, its step, and the key that it gives.
proof fn lemma_field_scope(
    env: Env,
    scope: Scope,
    document: DocumentNameView,
    type_: Type,
    around: Seq<SelectionView>,
    field: LinkedFieldView,
)
    requires
        is_inside(env.program.schema, scope, document, type_, around),
    ensures
        within_field(env, scope, field) matches Some(inner) ==> is_inside(
            env.program.schema,
            inner,
            document,
            type_,
            around.push(SelectionView::LinkedField(field)),
        ),
{
    let schema = env.program.schema;
    if let Some(inner) = within_field(env, scope, field) {
        let longer = around.push(SelectionView::LinkedField(field));
        let definition = schema.fields@[field.definition.item as int];
        assert(longer.drop_last() =~= around);
        lemma_given_key(document, field);
        named_type_is_found(definition.type_);
        assert(closest_field(longer) == Some(field));
        if let Some(given) = inner.key {
            assert(gives_key(field, given));
        }
        assert(inner.key == key_around(longer));
        assert(aliases_around(longer) == aliases_around(around));
        assert(path_items(inner.path) =~= steps_around(schema, longer));
    }
}

/// An inline fragment hands down a scope: its type and its alias, and the key of the field around.
proof fn lemma_fragment_scope(
    env: Env,
    scope: Scope,
    document: DocumentNameView,
    type_: Type,
    around: Seq<SelectionView>,
    fragment: InlineFragmentView,
)
    requires
        is_inside(env.program.schema, scope, document, type_, around),
    ensures
        is_inside(
            env.program.schema,
            scope.in_fragment(fragment),
            document,
            type_,
            around.push(SelectionView::InlineFragment(fragment)),
        ),
{
    let schema = env.program.schema;
    let inner = scope.in_fragment(fragment);
    let longer = around.push(SelectionView::InlineFragment(fragment));
    assert(longer.drop_last() =~= around);
    alias_is_found(fragment.directives);
    if has_alias(fragment.directives) {
        assert(is_alias(fragment.directives, alias_metadata(fragment.directives)->0.alias));
        assert(alias_of(fragment) == alias_metadata(fragment.directives)->0.alias);
    }
    assert(path_items(inner.path) =~= steps_around(schema, longer));
    assert(inner.aliases =~= aliases_around(longer));
    assert(closest_field(longer) == closest_field(around));
}

/// What takes the place of a spread inside of `around` is a module whose key and identifier are made
/// of the document's name and of what stands around.
proof fn lemma_module_in_place(
    env: Env,
    scope: Scope,
    progress: Progress,
    document: DocumentNameView,
    type_: Type,
    outside: Seq<SelectionView>,
    selections: Seq<SelectionView>,
    around: Seq<SelectionView>,
    spread: FragmentSpreadView,
    next: SelectionView,
)
    requires
        is_inside(env.program.schema, scope, document, type_, outside),
        visit_all(env, scope, progress, selections) matches Some((_, after)) && stands(
            selections,
            after,
            around,
            spread,
            next,
        ),
        next != SelectionView::FragmentSpread(spread),
    ensures
        is_module_around(env, document, type_, outside + around, spread, next),
    decreases around.len(),
{
    let schema = env.program.schema;
    let (_, after) = visit_all(env, scope, progress, selections)->0;
    if around.len() == 0 {
        let i = choose|i: int|
            {
                &&& 0 <= i < selections.len()
                &&& i < after.len()
                &&& #[trigger] selections[i] == SelectionView::FragmentSpread(spread)
                &&& after[i] == next
            };
        each_selection_is_visited(env, scope, progress, selections, i);
        let own = choose|own: Progress|
            (#[trigger] visit(env, scope, own, selections[i])) is Some && (visit(
                env,
                scope,
                own,
                selections[i],
            )->0).1 == after[i];
        replaced_spread_is_a_module(env, scope, own, spread);
        assert(outside + around =~= outside);
    } else {
        let i = choose|i: int|
            {
                &&& 0 <= i < selections.len()
                &&& i < after.len()
                &&& #[trigger] selections[i] == around[0]
                &&& stands(held(selections[i]), held(after[i]), around.drop_first(), spread, next)
            };
        each_selection_is_visited(env, scope, progress, selections, i);
        let own = choose|own: Progress|
            (#[trigger] visit(env, scope, own, selections[i])) is Some && (visit(
                env,
                scope,
                own,
                selections[i],
            )->0).1 == after[i];
        let inside = around.drop_first();
        let longer = outside.push(around[0]);
        assert(longer + inside =~= outside + around);
        assert(longer.drop_last() =~= outside);
        match selections[i] {
            SelectionView::FragmentSpread(_) => {
                assert(held(selections[i]).len() == 0);
            },
            SelectionView::ScalarField(_) => {
                assert(held(selections[i]).len() == 0);
            },
            SelectionView::InlineFragment(fragment) => {
                lemma_fragment_scope(env, scope, document, type_, outside, fragment);
                lemma_module_in_place(
                    env,
                    scope.in_fragment(fragment),
                    own,
                    document,
                    type_,
                    longer,
                    fragment.selections,
                    inside,
                    spread,
                    next,
                );
            },
            SelectionView::Condition(condition) => {
                assert(closest_field(longer) == closest_field(outside));
                lemma_module_in_place(
                    env,
                    scope,
                    own,
                    document,
                    type_,
                    longer,
                    condition.selections,
                    inside,
                    spread,
                    next,
                );
            },
            SelectionView::LinkedField(field) => {
                if after[i] == selections[i] {
                    lemma_stays(field.selections, inside, spread, next);
                }
                let inner = within_field(env, scope, field)->0;
                lemma_field_scope(env, scope, document, type_, outside, field);
                lemma_module_in_place(
                    env,
                    inner,
                    own,
                    document,
                    type_,
                    longer,
                    field.selections,
                    inside,
                    spread,
                    next,
                );
            },
        }
    }
}

/// Whether `next` is the module that takes the place of a spread inside of `around` in a document.
/// Its key is the one that `@match` gives on the closest field around, or else the document's name,
/// with the aliases of the inline fragments around behind it. Its identifier is the document's name
/// with the steps of the path behind it.
pub open spec fn is_module_around(
    env: Env,
    document: DocumentNameView,
    type_: Type,
    around: Seq<SelectionView>,
    spread: FragmentSpreadView,
    next: SelectionView,
) -> bool {
    is_module(
        env,
        document,
        type_around(env.program.schema, type_, around),
        key_at(document, key_around(around), aliases_around(around)),
        marked(name_text(document), steps_around(env.program.schema, around), "."@),
        spread,
        next,
    )
}

/// A spread that an operation holds, and that does not stay, becomes the module that belongs where it
/// stands: key and identifier are made of the operation's name and of what stands around the spread.
pub proof fn module_of_an_operation(
    env: Env,
    progress: Progress,
    operation: OperationView,
    around: Seq<SelectionView>,
    spread: FragmentSpreadView,
    next: SelectionView,
)
    requires
        visit_operation(env, progress, operation) matches Some((_, after)) && stands(
            operation.selections,
            after.selections,
            around,
            spread,
            next,
        ),
        next != SelectionView::FragmentSpread(spread),
    ensures
        is_module_around(
            env,
            DocumentNameView::Operation(operation.name.item),
            operation.type_,
            around,
            spread,
            next,
        ),
{
    let document = DocumentNameView::Operation(operation.name.item);
    lemma_module_of_a_document(
        env,
        progress,
        document,
        operation.type_,
        operation.selections,
        around,
        spread,
        next,
    );
}

/// A spread that a fragment holds, and that does not stay, becomes the module that belongs where it
/// stands: key and identifier are made of the fragment's name and of what stands around the spread.
pub proof fn module_of_a_fragment(
    env: Env,
    progress: Progress,
    fragment: FragmentView,
    around: Seq<SelectionView>,
    spread: FragmentSpreadView,
    next: SelectionView,
)
    requires
        visit_fragment(env, progress, fragment) matches Some((_, after)) && stands(
            fragment.selections,
            after.selections,
            around,
            spread,
            next,
        ),
        next != SelectionView::FragmentSpread(spread),
    ensures
        is_module_around(
            env,
            DocumentNameView::Fragment(fragment.name.item),
            fragment.type_condition,
            around,
            spread,
            next,
        ),
{
    let document = DocumentNameView::Fragment(fragment.name.item);
    lemma_module_of_a_document(
        env,
        progress,
        document,
        fragment.type_condition,
        fragment.selections,
        around,
        spread,
        next,
    );
}

/// A spread that a document holds, and that does not stay, becomes the module that belongs where it
/// stands.
pub(super) proof fn lemma_module_of_a_document(
    env: Env,
    progress: Progress,
    document: DocumentNameView,
    type_: Type,
    selections: Seq<SelectionView>,
    around: Seq<SelectionView>,
    spread: FragmentSpreadView,
    next: SelectionView,
)
    requires
        visit_all(env, document_scope(document, type_), progress.fresh(), selections) matches Some((_, after))
            && stands(selections, after, around, spread, next),
        next != SelectionView::FragmentSpread(spread),
    ensures
        is_module_around(env, document, type_, around, spread, next),
{
    let scope = document_scope(document, type_);
    assert(path_items(scope.path) =~= Seq::empty());
    lemma_module_in_place(
        env,
        scope,
        progress.fresh(),
        document,
        type_,
        Seq::empty(),
        selections,
        around,
        spread,
        next,
    );
    assert(Seq::<SelectionView>::empty() + around =~= around);
}

/// Whether selections hold a spread inside of the selections `around`.
pub open spec fn holds(
    selections: Seq<SelectionView>,
    around: Seq<SelectionView>,
    spread: FragmentSpreadView,
) -> bool {
    stands(selections, selections, around, spread, SelectionView::FragmentSpread(spread))
}

/// Every spread that selections hold, at any depth, is followed by a selection in its place.
pub proof fn every_spread_keeps_its_place(
    env: Env,
    scope: Scope,
    progress: Progress,
    selections: Seq<SelectionView>,
    around: Seq<SelectionView>,
    spread: FragmentSpreadView,
)
    requires
        holds(selections, around, spread),
        visit_all(env, scope, progress, selections) is Some,
    ensures
        exists|next: SelectionView| #[trigger]
            stands(
                selections,
                (visit_all(env, scope, progress, selections)->0).1,
                around,
                spread,
                next,
            ),
    decreases around.len(), 1int,
{
    let (_, after) = visit_all(env, scope, progress, selections)->0;
    if around.len() == 0 {
        let i = choose|i: int|
            0 <= i < selections.len() && #[trigger] selections[i] == SelectionView::FragmentSpread(spread);
        each_selection_is_visited(env, scope, progress, selections, i);
        assert(stands(selections, after, around, spread, after[i]));
    } else {
        let inside = around.drop_first();
        let i = choose|i: int|
            {
                &&& 0 <= i < selections.len()
                &&& #[trigger] selections[i] == around[0]
                &&& holds(held(selections[i]), inside, spread)
            };
        each_selection_is_visited(env, scope, progress, selections, i);
        let own = choose|own: Progress|
            (#[trigger] visit(env, scope, own, selections[i])) is Some && (visit(
                env,
                scope,
                own,
                selections[i],
            )->0).1 == after[i];
        lemma_spread_inside(env, scope, own, selections[i], inside, spread);
        let next = choose|next: SelectionView| #[trigger]
            stands(held(selections[i]), held(after[i]), inside, spread, next);
        assert(stands(selections, after, around, spread, next));
    }
}

/// Every spread that a selection holds, at any depth, is followed by a selection in its place.
proof fn lemma_spread_inside(
    env: Env,
    scope: Scope,
    progress: Progress,
    selection: SelectionView,
    inside: Seq<SelectionView>,
    spread: FragmentSpreadView,
)
    requires
        holds(held(selection), inside, spread),
        visit(env, scope, progress, selection) is Some,
    ensures
        exists|next: SelectionView| #[trigger]
            stands(
                held(selection),
                held((visit(env, scope, progress, selection)->0).1),
                inside,
                spread,
                next,
            ),
    decreases inside.len() + 1, 0int,
{
    let (_, after) = visit(env, scope, progress, selection)->0;
    match selection {
        SelectionView::FragmentSpread(_) => {
            assert(held(selection).len() == 0);
            assert(!stands(
                held(selection),
                held(selection),
                inside,
                spread,
                SelectionView::FragmentSpread(spread),
            ));
        },
        SelectionView::ScalarField(_) => {
            assert(held(selection).len() == 0);
            assert(!stands(
                held(selection),
                held(selection),
                inside,
                spread,
                SelectionView::FragmentSpread(spread),
            ));
        },
        SelectionView::InlineFragment(fragment) => {
            every_spread_keeps_its_place(
                env,
                scope.in_fragment(fragment),
                progress,
                fragment.selections,
                inside,
                spread,
            );
            assert(held(after) == (visit_all(
                env,
                scope.in_fragment(fragment),
                progress,
                fragment.selections,
            )->0).1);
        },
        SelectionView::Condition(condition) => {
            every_spread_keeps_its_place(env, scope, progress, condition.selections, inside, spread);
            assert(held(after) == (visit_all(env, scope, progress, condition.selections)->0).1);
        },
        SelectionView::LinkedField(field) => {
            if after == selection {
                assert(stands(
                    held(selection),
                    held(after),
                    inside,
                    spread,
                    SelectionView::FragmentSpread(spread),
                ));
            } else {
                let inner = within_field(env, scope, field)->0;
                every_spread_keeps_its_place(env, inner, progress, field.selections, inside, spread);
                assert(held(after) == (visit_all(env, inner, progress, field.selections)->0).1);
            }
        },
    }
}

} // verus!
