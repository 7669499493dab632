//! What models say of the values that they stand for: everything, part by part.

use vstd::prelude::*;

use crate::diagnostic::{Diagnostic, DiagnosticView, MessageView, ValidationMessage};
use crate::ir::{
    module_metadata, selections_view, without, Argument, AssociatedData, AssociatedDataView, Condition,
    ConstantValue, ConstantValueView, Directive, DirectiveView, DocumentNameView,
    ExecutableDefinitionName, FragmentDefinition, FragmentSpread, InlineFragment, LinkedField,
    ModuleMetadata, OperationDefinition, Program, ScalarField, Selection, SelectionView, Value,
    ValueView,
};
use crate::location::{Location, SourceLocationKey, WithLocation};
use crate::model::path_items;
use crate::schema::{ArgumentDefinition, Field};
use crate::text::{opt_view, views};

verus! {

/// The model of a list holds the models of its items, in their order.
pub proof fn lists_are_modelled_item_by_item<T: View>(items: Seq<T>)
    ensures
        views(items).len() == items.len(),
        forall|i: int| 0 <= i < items.len() ==> #[trigger] views(items)[i] == items[i]@,
{
}

/// The model of an optional item holds the model of the item.
pub proof fn options_are_modelled_by_their_items<T: View>(item: T)
    ensures
        opt_view(Some(item)) == Some(item@),
        opt_view(None::<T>) is None,
{
}

/// The names along a path are those of its steps.
pub proof fn path_is_named_step_by_step(path: Seq<WithLocation<Seq<char>>>)
    ensures
        path_items(path).len() == path.len(),
        forall|i: int| 0 <= i < path.len() ==> #[trigger] path_items(path)[i] == path[i].item,
{
}

/// The model of a document's name tells operations from fragments, and holds the name.
pub proof fn document_names_are_modelled(name: ExecutableDefinitionName)
    ensures
        match name {
            ExecutableDefinitionName::OperationDefinitionName(text) => name@ == DocumentNameView::Operation(text@)
                && name@.text() == text@,
            ExecutableDefinitionName::FragmentDefinitionName(text) => name@ == DocumentNameView::Fragment(text@)
                && name@.text() == text@,
        },
{
}

/// The model of a value holds the value.
pub proof fn values_are_modelled(value: Value, constant: ConstantValue)
    ensures
        match value {
            Value::Constant(constant) => value@ == ValueView::Constant(constant@),
            Value::Variable(name) => value@ == ValueView::Variable(name@),
            Value::Opaque(handle) => value@ == ValueView::Opaque(handle),
        },
        match constant {
            ConstantValue::Null => constant@ == ConstantValueView::Null,
            ConstantValue::Boolean(truth) => constant@ == ConstantValueView::Boolean(truth),
            ConstantValue::Int(number) => constant@ == ConstantValueView::Int(number),
            ConstantValue::String(text) => constant@ == ConstantValueView::String(text@),
            ConstantValue::Enum(text) => constant@ == ConstantValueView::Enum(text@),
            ConstantValue::List(items) => {
                &&& constant@ is List
                &&& constant@->List_0.len() == items@.len()
                &&& forall|i: int| 0 <= i < items@.len() ==> #[trigger] constant@->List_0[i] == items@[i]@
            },
            ConstantValue::Opaque(handle) => constant@ == ConstantValueView::Opaque(handle),
        },
{
}

/// The models of arguments and directives hold all their parts.
pub proof fn directives_are_modelled(argument: Argument, directive: Directive)
    ensures
        argument@.name.location == argument.name.location,
        argument@.name.item == argument.name.item@,
        argument@.value.location == argument.value.location,
        argument@.value.item == argument.value.item@,
        directive@.name.location == directive.name.location,
        directive@.name.item == directive.name.item@,
        directive@.location == directive.location,
        directive@.arguments == views(directive.arguments@),
        match directive.data {
            None => directive@.data is None,
            Some(AssociatedData::Opaque(handle)) => directive@.data == Some(AssociatedDataView::Opaque(handle)),
            Some(AssociatedData::FragmentAlias(metadata)) => {
                &&& directive@.data is Some
                &&& directive@.data->0 is FragmentAlias
                &&& directive@.data->0->FragmentAlias_0.alias.location == metadata.alias.location
                &&& directive@.data->0->FragmentAlias_0.alias.item == metadata.alias.item@
            },
            Some(AssociatedData::Module(metadata)) => directive@.data == Some(
                AssociatedDataView::Module(metadata@),
            ),
        },
{
}

/// The model of the metadata of a module holds all its parts, and the directive that carries it holds
/// nothing else.
pub proof fn metadata_is_modelled(metadata: ModuleMetadata)
    ensures
        metadata@.location == metadata.location,
        metadata@.key == metadata.key@,
        metadata@.module_id == metadata.module_id@,
        metadata@.module_name == metadata.module_name@,
        metadata@.source_document_name == metadata.source_document_name@,
        metadata@.read_time_resolvers == metadata.read_time_resolvers,
        metadata@.fragment_name == metadata.fragment_name@,
        metadata@.fragment_source_location == metadata.fragment_source_location,
        metadata@.no_inline == metadata.no_inline,
        metadata@.directive().data == Some(AssociatedDataView::Module(metadata@)),
        metadata@.directive().name.item == "__ModuleMetadata"@,
        metadata@.directive().name.location == (Location {
            source: SourceLocationKey::Generated,
            start: 0,
            end: 0,
        }),
        metadata@.directive().location == metadata@.directive().name.location,
        metadata@.directive().arguments.len() == 0,
{
}

/// The metadata of a module that is found among directives is that of the first that carries any.
pub proof fn metadata_is_found(directives: Seq<DirectiveView>)
    ensures
        match module_metadata(directives) {
            Some(metadata) => exists|i: int|
                {
                    &&& 0 <= i < directives.len()
                    &&& (#[trigger] directives[i]).data == Some(AssociatedDataView::Module(metadata))
                    &&& forall|j: int|
                        0 <= j < i ==> !((#[trigger] directives[j]).data matches Some(
                            AssociatedDataView::Module(_),
                        ))
                },
            None => forall|i: int|
                0 <= i < directives.len() ==> !((#[trigger] directives[i]).data matches Some(
                    AssociatedDataView::Module(_),
                )),
        },
    decreases directives.len(),
{
    if directives.len() > 0 {
        let rest = directives.drop_first();
        metadata_is_found(rest);
        if let Some(AssociatedDataView::Module(metadata)) = directives[0].data {
            assert(directives[0].data == Some(AssociatedDataView::Module(metadata)));
        } else {
            match module_metadata(rest) {
                Some(metadata) => {
                    let k = choose|i: int|
                        {
                            &&& 0 <= i < rest.len()
                            &&& (#[trigger] rest[i]).data == Some(AssociatedDataView::Module(metadata))
                            &&& forall|j: int|
                                0 <= j < i ==> !((#[trigger] rest[j]).data matches Some(
                                    AssociatedDataView::Module(_),
                                ))
                        };
                    assert(directives[k + 1] == rest[k]);
                    assert forall|j: int| 0 <= j < k + 1 implies !((#[trigger] directives[j]).data matches Some(
                        AssociatedDataView::Module(_),
                    )) by {
                        if j > 0 {
                            assert(rest[j - 1] == directives[j]);
                        }
                    }
                },
                None => {
                    assert forall|i: int| 0 <= i < directives.len() implies !((
                    #[trigger] directives[i]).data matches Some(AssociatedDataView::Module(_))) by {
                        if i > 0 {
                            assert(rest[i - 1] == directives[i]);
                        }
                    }
                },
            }
        }
    }
}

/// The models of selections hold all their parts.
pub proof fn selections_are_modelled(
    spread: FragmentSpread,
    fragment: InlineFragment,
    linked: LinkedField,
    scalar: ScalarField,
    condition: Condition,
)
    ensures
        spread@.fragment.location == spread.fragment.location,
        spread@.fragment.item == spread.fragment.item@,
        spread@.arguments == views(spread.arguments@),
        spread@.directives == views(spread.directives@),
        fragment@.type_condition == fragment.type_condition,
        fragment@.directives == views(fragment.directives@),
        fragment@.selections == selections_view(fragment.selections@),
        fragment@.spread_location == fragment.spread_location,
        linked@.alias == opt_view(linked.alias),
        linked@.definition == linked.definition,
        linked@.arguments == views(linked.arguments@),
        linked@.directives == views(linked.directives@),
        linked@.selections == selections_view(linked.selections@),
        scalar@.alias == opt_view(scalar.alias),
        scalar@.definition == scalar.definition,
        scalar@.arguments == views(scalar.arguments@),
        scalar@.directives == views(scalar.directives@),
        condition@.value == condition.value,
        condition@.passing_value == condition.passing_value,
        condition@.selections == selections_view(condition.selections@),
        condition@.location == condition.location,
{
}

/// The model of a selection is that of what it is, and lists of selections are modelled one by one.
pub proof fn selection_is_modelled(selection: Selection, selections: Seq<Selection>)
    ensures
        match selection {
            Selection::FragmentSpread(spread) => selection@ == SelectionView::FragmentSpread((*spread)@),
            Selection::InlineFragment(fragment) => selection@ == SelectionView::InlineFragment((*fragment)@),
            Selection::LinkedField(field) => selection@ == SelectionView::LinkedField((*field)@),
            Selection::ScalarField(field) => selection@ == SelectionView::ScalarField((*field)@),
            Selection::Condition(condition) => selection@ == SelectionView::Condition((*condition)@),
        },
        selections_view(selections).len() == selections.len(),
        forall|i: int| 0 <= i < selections.len() ==> #[trigger] selections_view(selections)[i] == selections[i]@,
{
}

/// The models of operations, fragments and programs hold all their parts.
pub proof fn documents_are_modelled(
    operation: OperationDefinition,
    fragment: FragmentDefinition,
    program: Program,
)
    ensures
        operation@.kind == operation.kind,
        operation@.name.location == operation.name.location,
        operation@.name.item == operation.name.item@,
        operation@.type_ == operation.type_,
        operation@.variable_definitions == operation.variable_definitions,
        operation@.directives == views(operation.directives@),
        operation@.selections == selections_view(operation.selections@),
        fragment@.name.location == fragment.name.location,
        fragment@.name.item == fragment.name.item@,
        fragment@.variable_definitions == fragment.variable_definitions,
        fragment@.used_global_variables == fragment.used_global_variables,
        fragment@.type_condition == fragment.type_condition,
        fragment@.directives == views(fragment.directives@),
        fragment@.selections == selections_view(fragment.selections@),
        program@.schema == *program.schema,
        program@.operations == views(program.operations@),
        program@.fragments == views(program.fragments@),
{
}

/// The models of fields of the schema hold all their parts.
pub proof fn schema_fields_are_modelled(field: Field, argument: ArgumentDefinition)
    ensures
        field@.name.location == field.name.location,
        field@.name.item == field.name.item@,
        field@.arguments == views(field.arguments@),
        field@.type_ == field.type_,
        argument@.name == argument.name@,
        argument@.type_ == argument.type_,
{
}

/// The model of a message says the same of the same.
pub proof fn messages_are_modelled(message: ValidationMessage)
    ensures
        match message {
            ValidationMessage::InvalidAliasWithinMatch => message@ is InvalidAliasWithinMatch,
            ValidationMessage::InvalidDirectUseOfJSField { field_name } => message@
                == MessageView::InvalidDirectUseOfJSField { field_name: field_name@ },
            ValidationMessage::InvalidMatchKeyArgument { document_name } => message@
                == MessageView::InvalidMatchKeyArgument { document_name: document_name@ },
            ValidationMessage::InvalidMatchNoModuleSelection => message@ is InvalidMatchNoModuleSelection,
            ValidationMessage::InvalidMatchNotAllSelectionsFragmentSpreadWithModule => {
                message@ is InvalidMatchNotAllSelectionsFragmentSpreadWithModule
            },
            ValidationMessage::InvalidMatchNotOnNonNullListString { field_name } => message@
                == MessageView::InvalidMatchNotOnNonNullListString { field_name: field_name@ },
            ValidationMessage::InvalidMatchNotOnUnionOrInterface { field_name } => message@
                == MessageView::InvalidMatchNotOnUnionOrInterface { field_name: field_name@ },
            ValidationMessage::InvalidMatchNoUserSuppliedSupportedArg { supported_arg } => message@
                == MessageView::InvalidMatchNoUserSuppliedSupportedArg { supported_arg: supported_arg@ },
            ValidationMessage::InvalidMatchWithNoSupportedArgument => {
                message@ is InvalidMatchWithNoSupportedArgument
            },
            ValidationMessage::InvalidModuleInvalidSchemaArguments {
                spread_name,
                type_string,
                js_field_name,
                js_field_module_arg,
                js_field_id_arg,
                js_field_type,
            } => message@ == MessageView::InvalidModuleInvalidSchemaArguments {
                spread_name: spread_name@,
                type_string: type_string@,
                js_field_name: js_field_name@,
                js_field_module_arg: js_field_module_arg@,
                js_field_id_arg: js_field_id_arg@,
                js_field_type: js_field_type@,
            },
            ValidationMessage::InvalidModuleNonLiteralName => message@ is InvalidModuleNonLiteralName,
            ValidationMessage::InvalidModuleNonScalarJSField { js_field_type } => message@
                == MessageView::InvalidModuleNonScalarJSField { js_field_type: js_field_type@ },
            ValidationMessage::InvalidModuleNoName => message@ is InvalidModuleNoName,
            ValidationMessage::InvalidModuleNotOnObject { spread_name, type_string } => message@
                == MessageView::InvalidModuleNotOnObject {
                spread_name: spread_name@,
                type_string: type_string@,
            },
            ValidationMessage::InvalidModuleSelectionMultipleMatches { type_string, alias_path } => message@
                == MessageView::InvalidModuleSelectionMultipleMatches {
                type_string: type_string@,
                alias_path: alias_path@,
            },
            ValidationMessage::InvalidModuleSelectionWithoutKey { document_name, parent_name } => message@
                == MessageView::InvalidModuleSelectionWithoutKey {
                document_name: document_name@,
                parent_name: parent_name@,
            },
            ValidationMessage::InvalidModuleWithAdditionalDirectives { spread_name } => message@
                == MessageView::InvalidModuleWithAdditionalDirectives { spread_name: spread_name@ },
            ValidationMessage::InvalidModuleWithArguments => message@ is InvalidModuleWithArguments,
            ValidationMessage::InvalidModuleWithInline => message@ is InvalidModuleWithInline,
            ValidationMessage::MissingRelayResolverModelForInterface { spread_name, parent_interface } => message@
                == MessageView::MissingRelayResolverModelForInterface {
                spread_name: spread_name@,
                parent_interface: parent_interface@,
            },
            ValidationMessage::MissingRelayResolverModelForObject { spread_name, object } => message@
                == MessageView::MissingRelayResolverModelForObject {
                spread_name: spread_name@,
                object: object@,
            },
            ValidationMessage::MissingRelayResolverModelForUnion { spread_name, parent_union } => message@
                == MessageView::MissingRelayResolverModelForUnion {
                spread_name: spread_name@,
                parent_union: parent_union@,
            },
            ValidationMessage::MissingServerSchemaDefinition { name } => message@
                == MessageView::MissingServerSchemaDefinition { name: name@ },
            ValidationMessage::Other { text } => message@ == MessageView::Other { text: text@ },
        },
{
}

/// A new report has no notes, and one more note leaves the others and the rest as they are.
pub proof fn notes_are_added(message: MessageView, report: DiagnosticView, note: Seq<char>, location: Location)
    ensures
        DiagnosticView::error(message, location).message == message,
        DiagnosticView::error(message, location).location == location,
        DiagnosticView::error(message, location).related.len() == 0,
        report.annotate(note, location).message == report.message,
        report.annotate(note, location).location == report.location,
        report.annotate(note, location).related == report.related.push(
            WithLocation { location, item: note },
        ),
{
}

/// Directives without those of a name are all the others, in their order.
pub proof fn other_directives_stay(directives: Seq<DirectiveView>, name: Seq<char>, more: DirectiveView)
    ensures
        without(Seq::empty(), name).len() == 0,
        without(directives.push(more), name) == if more.name.item == name {
            without(directives, name)
        } else {
            without(directives, name).push(more)
        },
{
    reveal(Seq::filter);
    assert(directives.push(more).drop_last() =~= directives);
}

/// The model of a report holds its message, its place and its notes.
pub proof fn reports_are_modelled(diagnostic: Diagnostic)
    ensures
        diagnostic@.message == diagnostic.message@,
        diagnostic@.location == diagnostic.location,
        diagnostic@.related.len() == diagnostic.related@.len(),
        forall|i: int|
            0 <= i < diagnostic.related@.len() ==> (#[trigger] diagnostic@.related[i]).location
                == diagnostic.related@[i].location && diagnostic@.related[i].item
                == diagnostic.related@[i].item@,
{
}

} // verus!
