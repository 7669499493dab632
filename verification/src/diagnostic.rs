//! What is reported of documents that break the rules of `@match` and `@module`.

use vstd::prelude::*;

use crate::ir::{DocumentNameView, ExecutableDefinitionName};
use crate::location::{Location, WithLocation};
use crate::text::views;

verus! {

/// A rule that a document breaks. `Other` stands for a message of another pass.
#[derive(Debug, PartialEq, Eq)]
pub enum ValidationMessage {
    InvalidAliasWithinMatch,
    InvalidDirectUseOfJSField { field_name: String },
    InvalidMatchKeyArgument { document_name: ExecutableDefinitionName },
    InvalidMatchNoModuleSelection,
    InvalidMatchNotAllSelectionsFragmentSpreadWithModule,
    InvalidMatchNotOnNonNullListString { field_name: String },
    InvalidMatchNotOnUnionOrInterface { field_name: String },
    InvalidMatchNoUserSuppliedSupportedArg { supported_arg: String },
    InvalidMatchWithNoSupportedArgument,
    InvalidModuleInvalidSchemaArguments {
        spread_name: String,
        type_string: String,
        js_field_name: String,
        js_field_module_arg: String,
        js_field_id_arg: String,
        js_field_type: String,
    },
    InvalidModuleNonLiteralName,
    InvalidModuleNonScalarJSField { js_field_type: String },
    InvalidModuleNoName,
    InvalidModuleNotOnObject { spread_name: String, type_string: String },
    InvalidModuleSelectionMultipleMatches { type_string: String, alias_path: String },
    InvalidModuleSelectionWithoutKey { document_name: ExecutableDefinitionName, parent_name: String },
    InvalidModuleWithAdditionalDirectives { spread_name: String },
    InvalidModuleWithArguments,
    InvalidModuleWithInline,
    MissingRelayResolverModelForInterface { spread_name: String, parent_interface: String },
    MissingRelayResolverModelForObject { spread_name: String, object: String },
    MissingRelayResolverModelForUnion { spread_name: String, parent_union: String },
    MissingServerSchemaDefinition { name: String },
    Other { text: String },
}

/// The model of a [`ValidationMessage`].
pub enum MessageView {
    InvalidAliasWithinMatch,
    InvalidDirectUseOfJSField { field_name: Seq<char> },
    InvalidMatchKeyArgument { document_name: DocumentNameView },
    InvalidMatchNoModuleSelection,
    InvalidMatchNotAllSelectionsFragmentSpreadWithModule,
    InvalidMatchNotOnNonNullListString { field_name: Seq<char> },
    InvalidMatchNotOnUnionOrInterface { field_name: Seq<char> },
    InvalidMatchNoUserSuppliedSupportedArg { supported_arg: Seq<char> },
    InvalidMatchWithNoSupportedArgument,
    InvalidModuleInvalidSchemaArguments {
        spread_name: Seq<char>,
        type_string: Seq<char>,
        js_field_name: Seq<char>,
        js_field_module_arg: Seq<char>,
        js_field_id_arg: Seq<char>,
        js_field_type: Seq<char>,
    },
    InvalidModuleNonLiteralName,
    InvalidModuleNonScalarJSField { js_field_type: Seq<char> },
    InvalidModuleNoName,
    InvalidModuleNotOnObject { spread_name: Seq<char>, type_string: Seq<char> },
    InvalidModuleSelectionMultipleMatches { type_string: Seq<char>, alias_path: Seq<char> },
    InvalidModuleSelectionWithoutKey { document_name: DocumentNameView, parent_name: Seq<char> },
    InvalidModuleWithAdditionalDirectives { spread_name: Seq<char> },
    InvalidModuleWithArguments,
    InvalidModuleWithInline,
    MissingRelayResolverModelForInterface { spread_name: Seq<char>, parent_interface: Seq<char> },
    MissingRelayResolverModelForObject { spread_name: Seq<char>, object: Seq<char> },
    MissingRelayResolverModelForUnion { spread_name: Seq<char>, parent_union: Seq<char> },
    MissingServerSchemaDefinition { name: Seq<char> },
    Other { text: Seq<char> },
}

impl View for ValidationMessage {
    type V = MessageView;

    open spec fn view(&self) -> MessageView {
        match self {
            ValidationMessage::InvalidAliasWithinMatch => MessageView::InvalidAliasWithinMatch,
            ValidationMessage::InvalidDirectUseOfJSField { field_name } => {
                MessageView::InvalidDirectUseOfJSField { field_name: field_name@ }
            },
            ValidationMessage::InvalidMatchKeyArgument { document_name } => {
                MessageView::InvalidMatchKeyArgument { document_name: document_name@ }
            },
            ValidationMessage::InvalidMatchNoModuleSelection => MessageView::InvalidMatchNoModuleSelection,
            ValidationMessage::InvalidMatchNotAllSelectionsFragmentSpreadWithModule => {
                MessageView::InvalidMatchNotAllSelectionsFragmentSpreadWithModule
            },
            ValidationMessage::InvalidMatchNotOnNonNullListString { field_name } => {
                MessageView::InvalidMatchNotOnNonNullListString { field_name: field_name@ }
            },
            ValidationMessage::InvalidMatchNotOnUnionOrInterface { field_name } => {
                MessageView::InvalidMatchNotOnUnionOrInterface { field_name: field_name@ }
            },
            ValidationMessage::InvalidMatchNoUserSuppliedSupportedArg { supported_arg } => {
                MessageView::InvalidMatchNoUserSuppliedSupportedArg { supported_arg: supported_arg@ }
            },
            ValidationMessage::InvalidMatchWithNoSupportedArgument => {
                MessageView::InvalidMatchWithNoSupportedArgument
            },
            ValidationMessage::InvalidModuleInvalidSchemaArguments {
                spread_name,
                type_string,
                js_field_name,
                js_field_module_arg,
                js_field_id_arg,
                js_field_type,
            } => {
                MessageView::InvalidModuleInvalidSchemaArguments {
                    spread_name: spread_name@,
                    type_string: type_string@,
                    js_field_name: js_field_name@,
                    js_field_module_arg: js_field_module_arg@,
                    js_field_id_arg: js_field_id_arg@,
                    js_field_type: js_field_type@,
                }
            },
            ValidationMessage::InvalidModuleNonLiteralName => MessageView::InvalidModuleNonLiteralName,
            ValidationMessage::InvalidModuleNonScalarJSField { js_field_type } => {
                MessageView::InvalidModuleNonScalarJSField { js_field_type: js_field_type@ }
            },
            ValidationMessage::InvalidModuleNoName => MessageView::InvalidModuleNoName,
            ValidationMessage::InvalidModuleNotOnObject { spread_name, type_string } => {
                MessageView::InvalidModuleNotOnObject {
                    spread_name: spread_name@,
                    type_string: type_string@,
                }
            },
            ValidationMessage::InvalidModuleSelectionMultipleMatches { type_string, alias_path } => {
                MessageView::InvalidModuleSelectionMultipleMatches {
                    type_string: type_string@,
                    alias_path: alias_path@,
                }
            },
            ValidationMessage::InvalidModuleSelectionWithoutKey { document_name, parent_name } => {
                MessageView::InvalidModuleSelectionWithoutKey {
                    document_name: document_name@,
                    parent_name: parent_name@,
                }
            },
            ValidationMessage::InvalidModuleWithAdditionalDirectives { spread_name } => {
                MessageView::InvalidModuleWithAdditionalDirectives { spread_name: spread_name@ }
            },
            ValidationMessage::InvalidModuleWithArguments => MessageView::InvalidModuleWithArguments,
            ValidationMessage::InvalidModuleWithInline => MessageView::InvalidModuleWithInline,
            ValidationMessage::MissingRelayResolverModelForInterface { spread_name, parent_interface } => {
                MessageView::MissingRelayResolverModelForInterface {
                    spread_name: spread_name@,
                    parent_interface: parent_interface@,
                }
            },
            ValidationMessage::MissingRelayResolverModelForObject { spread_name, object } => {
                MessageView::MissingRelayResolverModelForObject {
                    spread_name: spread_name@,
                    object: object@,
                }
            },
            ValidationMessage::MissingRelayResolverModelForUnion { spread_name, parent_union } => {
                MessageView::MissingRelayResolverModelForUnion {
                    spread_name: spread_name@,
                    parent_union: parent_union@,
                }
            },
            ValidationMessage::MissingServerSchemaDefinition { name } => {
                MessageView::MissingServerSchemaDefinition { name: name@ }
            },
            ValidationMessage::Other { text } => MessageView::Other { text: text@ },
        }
    }
}

/// A broken rule, the place where it is broken, and notes on other places.
#[derive(Debug, PartialEq, Eq)]
pub struct Diagnostic {
    pub message: ValidationMessage,
    pub location: Location,
    pub related: Vec<WithLocation<String>>,
}

/// The model of a [`Diagnostic`].
pub struct DiagnosticView {
    pub message: MessageView,
    pub location: Location,
    pub related: Seq<WithLocation<Seq<char>>>,
}

impl View for Diagnostic {
    type V = DiagnosticView;

    open spec fn view(&self) -> DiagnosticView {
        DiagnosticView {
            message: self.message@,
            location: self.location,
            related: views(self.related@),
        }
    }
}

impl DiagnosticView {
    /// A broken rule at a place, without notes.
    pub open spec fn error(message: MessageView, location: Location) -> DiagnosticView {
        DiagnosticView { message, location, related: Seq::empty() }
    }

    /// The same, with one more note.
    pub open spec fn annotate(self, note: Seq<char>, location: Location) -> DiagnosticView {
        DiagnosticView { related: self.related.push(WithLocation { location, item: note }), ..self }
    }
}

impl Diagnostic {
    /// Reports a broken rule at a place.
    pub fn error(message: ValidationMessage, location: Location) -> (diagnostic: Diagnostic)
        ensures
            diagnostic@ == DiagnosticView::error(message@, location),
    {
        let diagnostic = Diagnostic { message, location, related: Vec::new() };
        assert(diagnostic@.related =~= Seq::empty());
        diagnostic
    }

    /// Adds a note on another place.
    pub fn annotate(self, note: &str, location: Location) -> (diagnostic: Diagnostic)
        ensures
            diagnostic@ == self@.annotate(note@, location),
    {
        let mut related = self.related;
        related.push(WithLocation::new(location, note.to_owned()));
        let diagnostic = Diagnostic { message: self.message, location: self.location, related };
        assert(diagnostic@.related =~= self@.annotate(note@, location).related);
        diagnostic
    }
}

} // verus!
