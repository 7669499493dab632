//! Documents that something comes of.

use vstd::prelude::*;

use crate::constants::{JS_FIELD_NAME, JS_FIELD_TYPE, KEY_ARG, MATCH_DIRECTIVE_NAME, MODULE_DIRECTIVE_NAME};
use crate::ir::{alias_metadata, DocumentNameView, FragmentSpreadView, ProgramView, SelectionView};
use crate::laws::growth::within_field;
use crate::model::{
    matched_types, name_literals, visit, visit_all, Env, MatchMap, Progress, Scope,
};
use crate::named::first_named;
use crate::schema::{Schema, Type};

verus! {

/// Whether the schema knows every field of a selection, and no spread in it carries `@module`.
pub open spec fn is_unmarked(schema: Schema, selection: SelectionView) -> bool
    decreases selection,
{
    match selection {
        SelectionView::FragmentSpread(spread) => first_named(spread.directives, MODULE_DIRECTIVE_NAME@) is None,
        SelectionView::ScalarField(field) => schema.spec_field(field.definition.item) is Some,
        SelectionView::Condition(condition) => are_unmarked(schema, condition.selections),
        SelectionView::InlineFragment(fragment) => are_unmarked(schema, fragment.selections),
        SelectionView::LinkedField(field) => {
            &&& schema.spec_field(field.definition.item) is Some
            &&& are_unmarked(schema, field.selections)
        },
    }
}

/// Whether the schema knows every field of selections, and no spread in them carries `@module`.
pub open spec fn are_unmarked(schema: Schema, selections: Seq<SelectionView>) -> bool
    decreases selections,
{
    if selections.len() == 0 {
        true
    } else {
        &&& is_unmarked(schema, selections[0])
        &&& are_unmarked(schema, selections.drop_first())
    }
}

/// Something comes of all selections in which the schema knows every field and no spread carries
/// `@module`, whatever `@match` directives they hold, and no spread is met in them.
pub proof fn unmarked_selections_have_a_result(
    env: Env,
    scope: Scope,
    progress: Progress,
    selections: Seq<SelectionView>,
)
    requires
        are_unmarked(env.program.schema, selections),
    ensures
        visit_all(env, scope, progress, selections) matches Some((found, _)) && found == (Progress {
            errors: found.errors,
            ..progress
        }),
    decreases selections,
{
    if selections.len() > 0 {
        lemma_unmarked_selection(env, scope, progress, selections[0]);
        let (found, _) = visit(env, scope, progress, selections[0])->0;
        unmarked_selections_have_a_result(env, scope, found, selections.drop_first());
    }
}

/// Something comes of a selection in which the schema knows every field and no spread carries
/// `@module`.
proof fn lemma_unmarked_selection(env: Env, scope: Scope, progress: Progress, selection: SelectionView)
    requires
        is_unmarked(env.program.schema, selection),
    ensures
        visit(env, scope, progress, selection) matches Some((found, _)) && found == (Progress {
            errors: found.errors,
            ..progress
        }),
    decreases selection,
{
    match selection {
        SelectionView::FragmentSpread(_) => {},
        SelectionView::ScalarField(_) => {},
        SelectionView::InlineFragment(fragment) => {
            unmarked_selections_have_a_result(env, scope.in_fragment(fragment), progress, fragment.selections);
        },
        SelectionView::Condition(condition) => {
            unmarked_selections_have_a_result(env, scope, progress, condition.selections);
        },
        SelectionView::LinkedField(field) => {
            lemma_unmarked_match_nothing(env.program, field.selections);
            if let Some(inner) = within_field(env, scope, field) {
                unmarked_selections_have_a_result(env, inner, progress, field.selections);
            }
        },
    }
}

/// Selections without `@module` spreads match no types.
proof fn lemma_unmarked_match_nothing(program: ProgramView, selections: Seq<SelectionView>)
    requires
        are_unmarked(program.schema, selections),
    ensures
        matched_types(program, selections) == Some(Seq::<Type>::empty()),
    decreases selections.len(),
{
    if selections.len() > 0 {
        lemma_unmarked_parts(program.schema, selections);
        lemma_unmarked_match_nothing(program, selections.drop_last());
    }
}

/// What holds of unmarked selections holds of the last and of those before it.
proof fn lemma_unmarked_parts(schema: Schema, selections: Seq<SelectionView>)
    requires
        selections.len() > 0,
        are_unmarked(schema, selections),
    ensures
        is_unmarked(schema, selections.last()),
        are_unmarked(schema, selections.drop_last()),
    decreases selections.len(),
{
    if selections.len() > 1 {
        let rest = selections.drop_first();
        lemma_unmarked_parts(schema, rest);
        assert(selections.drop_last().drop_first() =~= rest.drop_last());
    }
}

/// Whether the schema's own numbers are sound where the transform follows them for a `@module`
/// spread: the spread uses a fragment that exists, its type has a name and, for an object, fields
/// that the schema knows.
pub open spec fn is_resolvable(program: ProgramView, spread: FragmentSpreadView) -> bool {
    match program.fragment(spread.fragment.item) {
        None => false,
        Some(fragment) => {
            &&& program.schema.spec_get_type_name(fragment.type_condition) is Some
            &&& fragment.type_condition matches Type::Object(id) ==> program.schema.spec_field_named(
                program.schema.objects@[id as int].fields@,
                JS_FIELD_NAME@,
            ) is Some
        },
    }
}

/// Whether a selection needs no keys: the schema knows every field, `@match` gives no key, no
/// fragment is aliased, and every `@module` spread is resolvable and stands in a field. `inside`
/// says whether the selection itself stands in a field.
pub open spec fn is_keyless(program: ProgramView, inside: bool, selection: SelectionView) -> bool
    decreases selection,
{
    match selection {
        SelectionView::FragmentSpread(spread) => first_named(
            spread.directives,
            MODULE_DIRECTIVE_NAME@,
        ) is Some ==> inside && is_resolvable(program, spread),
        SelectionView::ScalarField(field) => program.schema.spec_field(field.definition.item) is Some,
        SelectionView::Condition(condition) => are_keyless(program, inside, condition.selections),
        SelectionView::InlineFragment(fragment) => {
            &&& alias_metadata(fragment.directives) is None
            &&& are_keyless(program, inside, fragment.selections)
        },
        SelectionView::LinkedField(field) => {
            &&& program.schema.spec_field(field.definition.item) is Some
            &&& first_named(field.directives, MATCH_DIRECTIVE_NAME@) matches Some(directive) ==> first_named(
                directive.arguments,
                KEY_ARG@,
            ) is None
            &&& are_keyless(program, true, field.selections)
        },
    }
}

/// Whether selections need no keys.
pub open spec fn are_keyless(program: ProgramView, inside: bool, selections: Seq<SelectionView>) -> bool
    decreases selections,
{
    if selections.len() == 0 {
        true
    } else {
        &&& is_keyless(program, inside, selections[0])
        &&& are_keyless(program, inside, selections.drop_first())
    }
}

/// Whether all spreads that were met go by the name of the document.
pub open spec fn keyed_by(matches: MatchMap, document: DocumentNameView) -> bool {
    forall|path: Seq<Seq<char>>| #[trigger]
        matches.contains_key(path) ==> matches[path].key == document.text()
}

/// Whether the type of the `js` field, if the schema has it, is one of its types.
pub open spec fn js_type_is_known(schema: Schema) -> bool {
    schema.spec_get_type(JS_FIELD_TYPE@) matches Some(Type::Scalar(id)) ==> id < schema.scalars@.len()
}

/// Whether a scope stands where selections need no keys.
pub open spec fn is_keyless_scope(scope: Scope, inside: bool) -> bool {
    &&& scope.key is None
    &&& scope.aliases.len() == 0
    &&& inside ==> scope.path.len() > 0
}

/// Something comes of all selections that need no keys, where modules are not for Relay Resolvers
/// alone: whatever rules they break, that is reported.
pub proof fn keyless_selections_have_a_result(
    env: Env,
    scope: Scope,
    progress: Progress,
    inside: bool,
    selections: Seq<SelectionView>,
)
    requires
        !env.imports.spec_for_resolvers(),
        js_type_is_known(env.program.schema),
        is_keyless_scope(scope, inside),
        keyed_by(progress.matches, scope.document),
        are_keyless(env.program, inside, selections),
    ensures
        visit_all(env, scope, progress, selections) matches Some((found, _)) && keyed_by(
            found.matches,
            scope.document,
        ),
    decreases selections,
{
    if selections.len() > 0 {
        lemma_keyless_selection(env, scope, progress, inside, selections[0]);
        let (found, _) = visit(env, scope, progress, selections[0])->0;
        keyless_selections_have_a_result(env, scope, found, inside, selections.drop_first());
    }
}

/// Something comes of a selection that needs no keys.
proof fn lemma_keyless_selection(
    env: Env,
    scope: Scope,
    progress: Progress,
    inside: bool,
    selection: SelectionView,
)
    requires
        !env.imports.spec_for_resolvers(),
        js_type_is_known(env.program.schema),
        is_keyless_scope(scope, inside),
        keyed_by(progress.matches, scope.document),
        is_keyless(env.program, inside, selection),
    ensures
        visit(env, scope, progress, selection) matches Some((found, _)) && keyed_by(
            found.matches,
            scope.document,
        ),
    decreases selection,
{
    match selection {
        SelectionView::FragmentSpread(spread) => {},
        SelectionView::ScalarField(_) => {},
        SelectionView::InlineFragment(fragment) => {
            keyless_selections_have_a_result(
                env,
                scope.in_fragment(fragment),
                progress,
                inside,
                fragment.selections,
            );
        },
        SelectionView::Condition(condition) => {
            keyless_selections_have_a_result(env, scope, progress, inside, condition.selections);
        },
        SelectionView::LinkedField(field) => {
            let inner = within_field(env, scope, field)->0;
            keyless_selections_have_a_result(env, inner, progress, true, field.selections);
            lemma_keyless_types(env.program, field.selections);
        },
    }
}

/// The types that selections without keys match have names.
proof fn lemma_keyless_types(program: ProgramView, selections: Seq<SelectionView>)
    requires
        are_keyless(program, true, selections),
    ensures
        matched_types(program, selections) matches Some(types) && name_literals(
            program.schema,
            types,
        ) is Some,
    decreases selections.len(),
{
    if selections.len() > 0 {
        lemma_keyless_parts(program, selections);
        lemma_keyless_types(program, selections.drop_last());
        let before = matched_types(program, selections.drop_last())->0;
        let types = matched_types(program, selections)->0;
        if types != before {
            assert(types.drop_last() =~= before);
        }
    }
}

/// What holds of selections without keys holds of the last and of those before it.
proof fn lemma_keyless_parts(program: ProgramView, selections: Seq<SelectionView>)
    requires
        selections.len() > 0,
        are_keyless(program, true, selections),
    ensures
        is_keyless(program, true, selections.last()),
        are_keyless(program, true, selections.drop_last()),
    decreases selections.len(),
{
    if selections.len() > 1 {
        let rest = selections.drop_first();
        lemma_keyless_parts(program, rest);
        assert(selections.drop_last().drop_first() =~= rest.drop_last());
    }
}

} // verus!
