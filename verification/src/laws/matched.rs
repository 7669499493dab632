//! What becomes of a field with `@match`.

use vstd::prelude::*;

use crate::diagnostic::{DiagnosticView, MessageView};
use crate::ir::{
    ArgumentView, ConstantValueView, DirectiveView, DocumentNameView, FragmentView, LinkedFieldView,
    ProgramView, SelectionView, ValueView,
};
use crate::laws::places::{alias_of, named_type, named_type_is_found};
use crate::laws::replaced::name_text;
use crate::laws::terms::{
    alias_is_found, argument_is_found, declared_is_found, declares, directive_is_found,
    fragment_is_found, has_alias, has_argument, has_directive, is_first_argument, is_first_declared,
    is_fragment, is_type_string, literal, type_string_is_found,
};
use crate::laws::types::{
    matched_types_are_the_spread_ones, matched_types_come_in_order, spreads_type,
};
use crate::location::{Location, WithLocation};
use crate::model::{
    match_errors, match_field, match_key, match_selection_errors, matched_types, name_literals,
    takes_string_list,
};
use crate::named::first_named;
use crate::schema::{ArgumentDefinitionView, FieldView, Schema, Type, TypeReference};

verus! {

/// Whether a selection is a `@module` spread.
pub open spec fn is_module_spread(selection: SelectionView) -> bool {
    selection matches SelectionView::FragmentSpread(spread) && has_directive(spread.directives, "module"@)
}

/// Whether a selection is a `@module` spread of a fragment on a type.
pub open spec fn spreads(program: ProgramView, selection: SelectionView, type_: Type) -> bool {
    &&& is_module_spread(selection)
    &&& exists|fragment: FragmentView| #[trigger]
        is_fragment(program, selection->FragmentSpread_0.fragment.item, fragment)
            && fragment.type_condition == type_
}

/// Whether a selection may not stand under `@match`: it is neither a `@module` spread nor
/// `__typename`.
pub open spec fn is_misplaced(schema: Schema, selection: SelectionView) -> bool {
    &&& !is_module_spread(selection)
    &&& !(selection matches SelectionView::ScalarField(field) && field.definition.item
        == schema.typename_field)
}

/// Where a selection stands.
pub open spec fn place_of(selection: SelectionView) -> Location {
    match selection {
        SelectionView::FragmentSpread(spread) => spread.fragment.location,
        SelectionView::ScalarField(field) => field.definition.location,
        SelectionView::LinkedField(field) => field.definition.location,
        SelectionView::InlineFragment(fragment) => fragment.spread_location,
        SelectionView::Condition(condition) => condition.location,
    }
}

/// What is reported of a selection that may not stand under `@match`: an aliased fragment at its
/// alias, and any other selection at its place.
pub open spec fn misplaced_report(directive: DirectiveView, selection: SelectionView) -> DiagnosticView {
    let related = seq![WithLocation { location: directive.name.location, item: "in @match directive"@ }];
    match selection {
        SelectionView::InlineFragment(fragment) if has_alias(fragment.directives) => DiagnosticView {
            message: MessageView::InvalidAliasWithinMatch,
            location: alias_of(fragment).location,
            related,
        },
        _ => DiagnosticView {
            message: MessageView::InvalidMatchNotAllSelectionsFragmentSpreadWithModule,
            location: place_of(selection),
            related,
        },
    }
}

/// What is reported of the selections under `@match`: each that may not stand there, in their order.
pub open spec fn misplaced_reports(
    schema: Schema,
    directive: DirectiveView,
    selections: Seq<SelectionView>,
) -> Seq<DiagnosticView> {
    selections.filter(|selection: SelectionView| is_misplaced(schema, selection)).map_values(
        |selection: SelectionView| misplaced_report(directive, selection),
    )
}

/// Exactly the selections that may not stand under `@match` are reported, once each and in order.
pub proof fn misplaced_selections_are_reported(
    schema: Schema,
    directive: DirectiveView,
    selections: Seq<SelectionView>,
)
    ensures
        match_errors(schema, directive, selections) == misplaced_reports(schema, directive, selections),
    decreases selections.len(),
{
    reveal(Seq::filter);
    let misplaced = |selection: SelectionView| is_misplaced(schema, selection);
    let report = |selection: SelectionView| misplaced_report(directive, selection);
    if selections.len() == 0 {
        assert(selections.filter(misplaced).map_values(report) =~= Seq::empty());
    } else {
        let shorter = selections.drop_last();
        let last = selections.last();
        misplaced_selections_are_reported(schema, directive, shorter);
        lemma_misplaced_selection(schema, directive, last);
        if is_misplaced(schema, last) {
            assert(selections.filter(misplaced) == shorter.filter(misplaced).push(last));
            assert(selections.filter(misplaced).map_values(report) =~= shorter.filter(misplaced).map_values(
                report,
            ).push(misplaced_report(directive, last)));
            assert(match_errors(schema, directive, selections) =~= match_errors(
                schema,
                directive,
                shorter,
            ).push(misplaced_report(directive, last)));
        } else {
            assert(selections.filter(misplaced) == shorter.filter(misplaced));
            assert(match_errors(schema, directive, selections) =~= match_errors(schema, directive, shorter));
        }
    }
}

/// A selection is reported where it may not stand under `@match`.
proof fn lemma_misplaced_selection(schema: Schema, directive: DirectiveView, selection: SelectionView)
    ensures
        match_selection_errors(schema, directive, selection) == (if is_misplaced(schema, selection) {
            seq![misplaced_report(directive, selection)]
        } else {
            Seq::empty()
        }),
{
    match selection {
        SelectionView::FragmentSpread(spread) => {
            directive_is_found(spread.directives, "module"@);
        },
        SelectionView::InlineFragment(fragment) => {
            alias_is_found(fragment.directives);
        },
        _ => {},
    }
    if is_misplaced(schema, selection) {
        let errors = match_selection_errors(schema, directive, selection);
        assert(errors.len() == 1);
        assert(errors[0].related =~= misplaced_report(directive, selection).related);
        assert(errors =~= seq![misplaced_report(directive, selection)]);
    }
}

/// Whether a reference is a string, nullable or not.
pub open spec fn is_string_item(schema: Schema, reference: TypeReference) -> bool {
    ||| reference == TypeReference::Named(schema.string_type)
    ||| reference matches TypeReference::NonNull(of) && *of == TypeReference::Named(schema.string_type)
}

/// Whether a reference is a list of strings, nullable or not.
pub open spec fn is_string_list(schema: Schema, reference: TypeReference) -> bool {
    ||| reference matches TypeReference::List(of) && is_string_item(schema, *of)
    ||| reference matches TypeReference::NonNull(list) && *list matches TypeReference::List(of)
        && is_string_item(schema, *of)
}

/// Whether types are those of the fragments that the `@module` spreads among selections use: each of
/// them once, in the order in which the spreads bring them up.
pub open spec fn are_spread_types(
    program: ProgramView,
    selections: Seq<SelectionView>,
    types: Seq<Type>,
) -> bool {
    &&& types.no_duplicates()
    &&& forall|type_: Type| #[trigger]
        types.contains(type_) <==> exists|i: int|
            0 <= i < selections.len() && #[trigger] spreads(program, selections[i], type_)
    &&& forall|count: int|
        0 <= count <= selections.len() ==> #[trigger] spread_first(program, selections, types, count)
}

/// Whether the types that the first selections bring up come first.
pub open spec fn spread_first(
    program: ProgramView,
    selections: Seq<SelectionView>,
    types: Seq<Type>,
    count: int,
) -> bool {
    exists|length: int|
        0 <= length <= types.len() && #[trigger] are_types_of_first(
            program,
            selections,
            count,
            types.take(length),
        )
}

/// Whether types are exactly those that the first selections bring up.
pub open spec fn are_types_of_first(
    program: ProgramView,
    selections: Seq<SelectionView>,
    count: int,
    types: Seq<Type>,
) -> bool {
    forall|type_: Type| #[trigger]
        types.contains(type_) <==> exists|i: int|
            0 <= i < count && #[trigger] spreads(program, selections[i], type_)
}

/// Whether an argument lists the names of types, name and value at one place.
pub open spec fn lists(schema: Schema, argument: ArgumentView, types: Seq<Type>, place: Location) -> bool {
    &&& argument.name == (WithLocation { location: place, item: "supported"@ })
    &&& argument.value.location == place
    &&& argument.value.item matches ValueView::Constant(ConstantValueView::List(names))
    &&& names.len() == types.len()
    &&& forall|i: int|
        0 <= i < types.len() ==> (#[trigger] names[i]) is String && is_type_string(
            schema,
            types[i],
            names[i]->String_0,
        )
}

/// Whether a field is allowed to carry `@match` and to list the supported types: it declares
/// `supported` as a list of strings, is of an interface or a union, and is not given `supported`.
pub open spec fn may_list(schema: Schema, field: LinkedFieldView, definition: FieldView) -> bool {
    &&& exists|declared: ArgumentDefinitionView| #[trigger]
        is_first_declared(definition.arguments, "supported"@, declared) && is_string_list(
            schema,
            declared.type_,
        )
    &&& named_type(definition.type_) is Interface || named_type(definition.type_) is Union
    &&& !has_argument(field.arguments, "supported"@)
}

/// What becomes of a field with `@match` whose selections become `selections`.
///
/// Where it declares no `supported` argument, it stays but for its selections, and has to give a key.
/// Else it has to declare `supported` as a list of strings, to be of an interface or a union, not to
/// be given `supported`, and to hold a `@module` spread: the first of these that fails is reported.
/// Where none fails it lists the types of the `@module` spreads that it holds behind its arguments,
/// and keeps all its directives but `@match` in their order.
pub proof fn matched_field_is_checked_and_listed(
    program: ProgramView,
    field: LinkedFieldView,
    definition: FieldView,
    directive: DirectiveView,
    selections: Seq<SelectionView>,
)
    ensures
        match match_field(program, field, definition, directive, selections) {
            None => may_list(program.schema, field, definition) && exists|i: int|
                0 <= i < field.selections.len() && #[trigger] is_module_spread(field.selections[i])
                    && forall|type_: Type, name: Seq<char>|
                    spreads(program, field.selections[i], type_) ==> !is_type_string(
                        program.schema,
                        type_,
                        name,
                    ),
            Some((errors, Ok(next))) => {
                &&& next.alias == field.alias
                &&& next.definition == field.definition
                &&& next.selections == selections
                &&& if declares(definition.arguments, "supported"@) {
                    &&& may_list(program.schema, field, definition)
                    &&& errors == misplaced_reports(program.schema, directive, field.selections)
                    &&& next.directives == field.directives.filter(
                        |other: DirectiveView| other.name.item != "match"@,
                    )
                    &&& next.arguments.len() == field.arguments.len() + 1
                    &&& next.arguments.drop_last() == field.arguments
                    &&& exists|types: Seq<Type>| #[trigger]
                        are_spread_types(program, field.selections, types) && types.len() > 0 && lists(
                            program.schema,
                            next.arguments.last(),
                            types,
                            field.definition.location,
                        )
                } else {
                    &&& errors.len() == 0
                    &&& has_argument(directive.arguments, "key"@)
                    &&& next.directives == field.directives
                    &&& next.arguments == field.arguments
                }
            },
            Some((errors, Err(error))) => {
                &&& error.related.len() == 0
                &&& match error.message {
                    MessageView::InvalidMatchWithNoSupportedArgument => {
                        &&& errors.len() == 0
                        &&& !declares(definition.arguments, "supported"@)
                        &&& !has_argument(directive.arguments, "key"@)
                        &&& error.location == directive.location
                    },
                    MessageView::InvalidMatchNotOnNonNullListString { field_name } => {
                        &&& errors.len() == 0
                        &&& field_name == definition.name.item
                        &&& error.location == field.definition.location
                        &&& exists|declared: ArgumentDefinitionView| #[trigger]
                            is_first_declared(definition.arguments, "supported"@, declared)
                                && !is_string_list(program.schema, declared.type_)
                    },
                    MessageView::InvalidMatchNotOnUnionOrInterface { field_name } => {
                        &&& errors.len() == 0
                        &&& field_name == definition.name.item
                        &&& error.location == field.definition.location
                        &&& exists|declared: ArgumentDefinitionView| #[trigger]
                            is_first_declared(definition.arguments, "supported"@, declared)
                                && is_string_list(program.schema, declared.type_)
                        &&& !(named_type(definition.type_) is Interface)
                        &&& !(named_type(definition.type_) is Union)
                    },
                    MessageView::InvalidMatchNoUserSuppliedSupportedArg { supported_arg } => {
                        &&& errors.len() == 0
                        &&& supported_arg == "supported"@
                        &&& exists|declared: ArgumentDefinitionView| #[trigger]
                            is_first_declared(definition.arguments, "supported"@, declared)
                                && is_string_list(program.schema, declared.type_)
                        &&& named_type(definition.type_) is Interface || named_type(
                            definition.type_,
                        ) is Union
                        &&& exists|argument: ArgumentView| #[trigger]
                            is_first_argument(field.arguments, "supported"@, argument) && error.location
                                == argument.name.location
                    },
                    MessageView::InvalidMatchNoModuleSelection => {
                        &&& errors == misplaced_reports(program.schema, directive, field.selections)
                        &&& may_list(program.schema, field, definition)
                        &&& error.location == directive.location
                        &&& forall|i: int|
                            0 <= i < field.selections.len() ==> !is_module_spread(
                                #[trigger] field.selections[i],
                            )
                    },
                    _ => false,
                }
            },
        },
{
    let schema = program.schema;
    declared_is_found(definition.arguments, "supported"@);
    argument_is_found(directive.arguments, "key"@);
    argument_is_found(field.arguments, "supported"@);
    named_type_is_found(definition.type_);
    misplaced_selections_are_reported(schema, directive, field.selections);
    if let Some(declared) = first_named(definition.arguments, "supported"@) {
        lemma_string_list(schema, declared);
        if takes_string_list(schema, declared) {
            assert(is_string_list(schema, declared.type_));
        }
    }
    match matched_types(program, field.selections) {
        None => {
            lemma_missing_fragment(program, field.selections);
            if match_field(program, field, definition, directive, selections) is None {
                let i = choose|i: int|
                    0 <= i < field.selections.len() && #[trigger] is_module_spread(field.selections[i])
                        && forall|type_: Type| !spreads(program, field.selections[i], type_);
                assert(is_module_spread(field.selections[i]));
            }
        },
        Some(types) => {
            lemma_spread_types(program, field.selections);
            lemma_names(schema, types);
            if types.len() == 0 {
                assert forall|i: int| 0 <= i < field.selections.len() implies !is_module_spread(
                    #[trigger] field.selections[i],
                ) by {
                    if is_module_spread(field.selections[i]) {
                        lemma_found_fragment(program, field.selections, i);
                        let type_ = choose|type_: Type| spreads(program, field.selections[i], type_);
                        assert(types.contains(type_));
                    }
                }
            }
            match name_literals(schema, types) {
                None => {
                    let k = choose|k: int|
                        0 <= k < types.len() && schema.spec_get_type_name(#[trigger] types[k]) is None;
                    assert(types.contains(types[k]));
                    let i = choose|i: int|
                        0 <= i < field.selections.len() && #[trigger] spreads(
                            program,
                            field.selections[i],
                            types[k],
                        );
                    type_string_is_found(schema, types[k]);
                    assert forall|type_: Type, name: Seq<char>|
                        spreads(program, field.selections[i], type_) implies !is_type_string(
                        schema,
                        type_,
                        name,
                    ) by {
                        fragment_is_found(program, field.selections[i]->FragmentSpread_0.fragment.item);
                        assert(type_ == types[k]);
                    }
                    assert(is_module_spread(field.selections[i]));
                },
                Some(names) => {
                    if let Some((_, Ok(next))) = match_field(program, field, definition, directive, selections) {
                        if declares(definition.arguments, "supported"@) {
                            assert(next.arguments.drop_last() =~= field.arguments);
                            assert(lists(schema, next.arguments.last(), types, field.definition.location));
                        }
                    }
                },
            }
        },
    }
}

/// A declared argument is found to take a list of strings exactly where it does.
proof fn lemma_string_list(schema: Schema, declared: ArgumentDefinitionView)
    ensures
        takes_string_list(schema, declared) == is_string_list(schema, declared.type_),
{
}

/// A spread is found to be of a fragment on a type exactly where it is.
proof fn lemma_spreads(program: ProgramView, selection: SelectionView)
    ensures
        forall|type_: Type|
            spreads_type(program, selection, type_) == #[trigger] spreads(program, selection, type_),
        is_module_spread(selection) ==> first_named(
            selection->FragmentSpread_0.directives,
            "module"@,
        ) is Some,
{
    if let SelectionView::FragmentSpread(spread) = selection {
        directive_is_found(spread.directives, "module"@);
        fragment_is_found(program, spread.fragment.item);
        assert forall|type_: Type|
            spreads_type(program, selection, type_) == #[trigger] spreads(program, selection, type_) by {
            if spreads_type(program, selection, type_) {
                assert(is_fragment(program, spread.fragment.item, program.fragment(spread.fragment.item)->0));
            }
        }
    }
}

/// Where types cannot be told, a `@module` spread uses a fragment that does not exist.
proof fn lemma_missing_fragment(program: ProgramView, selections: Seq<SelectionView>)
    requires
        matched_types(program, selections) is None,
    ensures
        exists|i: int|
            0 <= i < selections.len() && #[trigger] is_module_spread(selections[i]) && forall|type_: Type|
                !spreads(program, selections[i], type_),
    decreases selections.len(),
{
    let shorter = selections.drop_last();
    if matched_types(program, shorter) is None {
        lemma_missing_fragment(program, shorter);
        let i = choose|i: int|
            0 <= i < shorter.len() && #[trigger] is_module_spread(shorter[i]) && forall|type_: Type|
                !spreads(program, shorter[i], type_);
        assert(selections[i] == shorter[i]);
        assert(is_module_spread(selections[i]));
    } else {
        let spread = selections.last()->FragmentSpread_0;
        directive_is_found(spread.directives, "module"@);
        fragment_is_found(program, spread.fragment.item);
        assert(is_module_spread(selections[selections.len() - 1]));
    }
}

/// Where types can be told, every `@module` spread uses a fragment that exists.
proof fn lemma_found_fragment(program: ProgramView, selections: Seq<SelectionView>, i: int)
    requires
        matched_types(program, selections) is Some,
        0 <= i < selections.len(),
        is_module_spread(selections[i]),
    ensures
        exists|type_: Type| spreads(program, selections[i], type_),
    decreases selections.len(),
{
    let shorter = selections.drop_last();
    if i < shorter.len() {
        assert(shorter[i] == selections[i]);
        lemma_found_fragment(program, shorter, i);
    } else {
        let spread = selections[i]->FragmentSpread_0;
        directive_is_found(spread.directives, "module"@);
        fragment_is_found(program, spread.fragment.item);
        let fragment = program.fragment(spread.fragment.item)->0;
        assert(is_fragment(program, spread.fragment.item, fragment));
        assert(spreads(program, selections[i], fragment.type_condition));
    }
}

/// The matched types are those of the `@module` spreads, once each and in order.
proof fn lemma_spread_types(program: ProgramView, selections: Seq<SelectionView>)
    ensures
        matched_types(program, selections) matches Some(types) ==> are_spread_types(program, selections, types),
{
    if let Some(types) = matched_types(program, selections) {
        matched_types_are_the_spread_ones(program, selections);
        assert forall|i: int, type_: Type| 0 <= i < selections.len() implies spreads_type(
            program,
            #[trigger] selections[i],
            type_,
        ) == #[trigger] spreads(program, selections[i], type_) by {
            lemma_spreads(program, selections[i]);
        }
        assert forall|type_: Type| #[trigger] types.contains(type_) <==> exists|i: int|
            0 <= i < selections.len() && #[trigger] spreads(program, selections[i], type_) by {
            if types.contains(type_) {
                let i = choose|i: int|
                    0 <= i < selections.len() && #[trigger] spreads_type(program, selections[i], type_);
                assert(spreads(program, selections[i], type_));
            }
            if exists|i: int| 0 <= i < selections.len() && #[trigger] spreads(program, selections[i], type_) {
                let i = choose|i: int|
                    0 <= i < selections.len() && #[trigger] spreads(program, selections[i], type_);
                assert(spreads_type(program, selections[i], type_));
            }
        }
        assert forall|count: int| 0 <= count <= selections.len() implies #[trigger] spread_first(
            program,
            selections,
            types,
            count,
        ) by {
            let taken = selections.take(count);
            matched_types_come_in_order(program, selections, count);
            matched_types_are_the_spread_ones(program, taken);
            let first = matched_types(program, taken)->0;
            let length = first.len() as int;
            assert(types.take(length) =~= first);
            assert forall|type_: Type| #[trigger] types.take(length).contains(type_) <==> exists|i: int|
                0 <= i < count && #[trigger] spreads(program, selections[i], type_) by {
                if types.take(length).contains(type_) {
                    let i = choose|i: int|
                        0 <= i < taken.len() && #[trigger] spreads_type(program, taken[i], type_);
                    assert(taken[i] == selections[i]);
                    assert(spreads(program, selections[i], type_));
                }
                if exists|i: int| 0 <= i < count && #[trigger] spreads(program, selections[i], type_) {
                    let i = choose|i: int| 0 <= i < count && #[trigger] spreads(program, selections[i], type_);
                    assert(taken[i] == selections[i]);
                    assert(spreads_type(program, taken[i], type_));
                }
            }
            assert(are_types_of_first(program, selections, count, types.take(length)));
        }
    }
}

/// The names of types are theirs, in their order; they are missing where a type has none.
proof fn lemma_names(schema: Schema, types: Seq<Type>)
    ensures
        match name_literals(schema, types) {
            Some(names) => {
                &&& names.len() == types.len()
                &&& forall|i: int|
                    0 <= i < types.len() ==> (#[trigger] names[i]) is String && is_type_string(
                        schema,
                        types[i],
                        names[i]->String_0,
                    )
            },
            None => exists|k: int|
                0 <= k < types.len() && schema.spec_get_type_name(#[trigger] types[k]) is None,
        },
    decreases types.len(),
{
    if types.len() > 0 {
        let shorter = types.drop_last();
        lemma_names(schema, shorter);
        type_string_is_found(schema, types.last());
        match name_literals(schema, shorter) {
            None => {
                let k = choose|k: int|
                    0 <= k < shorter.len() && schema.spec_get_type_name(#[trigger] shorter[k]) is None;
                assert(types[k] == shorter[k]);
            },
            Some(names) => {
                if schema.spec_get_type_name(types.last()) is None {
                    assert(types[types.len() - 1] == types.last());
                } else {
                    let all = name_literals(schema, types)->0;
                    assert forall|i: int| 0 <= i < types.len() implies (#[trigger] all[i]) is String
                        && is_type_string(schema, types[i], all[i]->String_0) by {
                        if i < shorter.len() {
                            assert(all[i] == names[i]);
                            assert(types[i] == shorter[i]);
                        }
                    }
                }
            },
        }
    }
}

/// The key that `@match` gives is the string literal of its first `key` argument, which has to begin
/// with the document's name; another value is reported at its place.
pub proof fn key_begins_with_the_document(document: DocumentNameView, directive: DirectiveView)
    ensures
        match match_key(document, directive) {
            Ok(None) => !has_argument(directive.arguments, "key"@),
            Ok(Some(key)) => {
                &&& name_text(document).is_prefix_of(key)
                &&& exists|argument: ArgumentView| #[trigger]
                    is_first_argument(directive.arguments, "key"@, argument) && argument.value.item == literal(
                        key,
                    )
            },
            Err(error) => exists|argument: ArgumentView| #[trigger]
                is_first_argument(directive.arguments, "key"@, argument) && {
                    &&& forall|key: Seq<char>|
                        argument.value.item == #[trigger] literal(key) ==> !name_text(document).is_prefix_of(
                            key,
                        )
                    &&& error.message == MessageView::InvalidMatchKeyArgument { document_name: document }
                    &&& error.location == argument.value.location
                    &&& error.related.len() == 0
                },
        },
{
    argument_is_found(directive.arguments, "key"@);
    if let Some(argument) = first_named(directive.arguments, "key"@) {
        assert(is_first_argument(directive.arguments, "key"@, argument));
        if let Ok(Some(key)) = match_key(document, directive) {
            assert(argument.value.item == literal(key));
        }
    }
}

} // verus!
