//! The types that fields with `@match` list.

use vstd::prelude::*;

use crate::constants::{MATCH_DIRECTIVE_NAME, MODULE_DIRECTIVE_NAME, SUPPORTED_ARG};
use crate::ir::{ConstantValueView, DirectiveView, LinkedFieldView, ProgramView, SelectionView};
use crate::laws::settled::lemma_without_it;
use crate::model::{match_field, matched_types, name_literals};
use crate::named::first_named;
use crate::schema::{FieldView, Schema, Type};

verus! {

/// Whether a selection is a `@module` spread of a fragment on a type.
pub open spec fn spreads_type(program: ProgramView, selection: SelectionView, type_: Type) -> bool {
    &&& selection matches SelectionView::FragmentSpread(spread)
    &&& first_named(spread.directives, MODULE_DIRECTIVE_NAME@) is Some
    &&& program.fragment(spread.fragment.item) matches Some(fragment)
    &&& fragment.type_condition == type_
}

/// The types that a field with `@match` lists are those of the `@module` spreads that it holds,
/// each of them once.
pub proof fn matched_types_are_the_spread_ones(program: ProgramView, selections: Seq<SelectionView>)
    ensures
        matched_types(program, selections) matches Some(types) ==> {
            &&& types.no_duplicates()
            &&& forall|type_: Type|
                types.contains(type_) <==> exists|i: int|
                    0 <= i < selections.len() && #[trigger] spreads_type(program, selections[i], type_)
        },
    decreases selections.len(),
{
    if selections.len() > 0 {
        let shorter = selections.drop_last();
        matched_types_are_the_spread_ones(program, shorter);
        if let Some(types) = matched_types(program, selections) {
            let before = matched_types(program, shorter)->0;
            assert forall|type_: Type| types.contains(type_) <==> exists|i: int|
                0 <= i < selections.len() && #[trigger] spreads_type(program, selections[i], type_) by {
                if types.contains(type_) {
                    if before.contains(type_) {
                        let i = choose|i: int|
                            0 <= i < shorter.len() && #[trigger] spreads_type(program, shorter[i], type_);
                        assert(spreads_type(program, selections[i], type_));
                    } else {
                        assert(type_ == types.last());
                        assert(spreads_type(program, selections[selections.len() - 1], type_));
                    }
                }
                if exists|i: int|
                    0 <= i < selections.len() && #[trigger] spreads_type(program, selections[i], type_) {
                    let i = choose|i: int|
                        0 <= i < selections.len() && #[trigger] spreads_type(program, selections[i], type_);
                    if i < shorter.len() {
                        assert(spreads_type(program, shorter[i], type_));
                        assert(before.contains(type_));
                        let j = choose|j: int| 0 <= j < before.len() && before[j] == type_;
                        assert(types[j] == type_);
                    } else if !before.contains(type_) {
                        assert(types.last() == type_);
                    }
                }
            }
        }
    }
}

/// The types that a field with `@match` lists come in the order in which the spreads bring them
/// up: the types of its first selections come first.
pub proof fn matched_types_come_in_order(program: ProgramView, selections: Seq<SelectionView>, count: int)
    requires
        0 <= count <= selections.len(),
    ensures
        matched_types(program, selections) matches Some(types) ==> {
            &&& matched_types(program, selections.take(count)) matches Some(first)
            &&& first.is_prefix_of(types)
        },
    decreases selections.len(),
{
    if count == selections.len() {
        assert(selections.take(count) =~= selections);
    } else {
        let shorter = selections.drop_last();
        matched_types_come_in_order(program, shorter, count);
        assert(shorter.take(count) =~= selections.take(count));
    }
}

/// A field with `@match` that can list the supported types gets an argument, after its own ones,
/// that lists the names of the matched types in their order, and does not carry `@match` any more.
pub proof fn matched_field_lists_the_types(
    program: ProgramView,
    field: LinkedFieldView,
    definition: FieldView,
    directive: DirectiveView,
    selections: Seq<SelectionView>,
)
    requires
        first_named(definition.arguments, SUPPORTED_ARG@) is Some,
    ensures
        match_field(program, field, definition, directive, selections) matches Some((_, Ok(next))) ==> {
            let types = matched_types(program, field.selections)->0;
            let listed = next.arguments.last().value.item->Constant_0->List_0;
            &&& matched_types(program, field.selections) is Some
            &&& types.len() > 0
            &&& next.arguments.drop_last() == field.arguments
            &&& next.arguments.last().name.item == SUPPORTED_ARG@
            &&& next.arguments.last().value.item is Constant
            &&& next.arguments.last().value.item->Constant_0 is List
            &&& listed.len() == types.len()
            &&& forall|i: int|
                0 <= i < types.len() ==> {
                    &&& program.schema.spec_get_type_name(#[trigger] types[i]) is Some
                    &&& listed[i] == ConstantValueView::String(
                        program.schema.spec_get_type_name(types[i])->0,
                    )
                }
            &&& first_named(next.directives, MATCH_DIRECTIVE_NAME@) is None
        },
{
    lemma_without_it(field.directives, MATCH_DIRECTIVE_NAME@);
    if let Some((_, Ok(next))) = match_field(program, field, definition, directive, selections) {
        let types = matched_types(program, field.selections)->0;
        lemma_name_literals(program.schema, types);
        assert(next.arguments.drop_last() =~= field.arguments);
    }
}

/// The names of types come in the order of the types.
proof fn lemma_name_literals(schema: Schema, types: Seq<Type>)
    ensures
        name_literals(schema, types) matches Some(names) ==> {
            &&& names.len() == types.len()
            &&& forall|i: int|
                0 <= i < types.len() ==> {
                    &&& schema.spec_get_type_name(#[trigger] types[i]) is Some
                    &&& names[i] == ConstantValueView::String(schema.spec_get_type_name(types[i])->0)
                }
        },
    decreases types.len(),
{
    if types.len() > 0 {
        lemma_name_literals(schema, types.drop_last());
        if let Some(names) = name_literals(schema, types) {
            assert forall|i: int| 0 <= i < types.len() implies {
                &&& schema.spec_get_type_name(#[trigger] types[i]) is Some
                &&& names[i] == ConstantValueView::String(schema.spec_get_type_name(types[i])->0)
            } by {
                if i < types.len() - 1 {
                    assert(types.drop_last()[i] == types[i]);
                }
            }
        }
    }
}

} // verus!
